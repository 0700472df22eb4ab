//! What is done with an open device: waiting for it to boot, reading and
//! setting its mode, and resetting it.

use vstd::prelude::*;

use crate::cc::chip::{Chip, Switch};
use crate::cc::error::{stop_error, stopped, CcError, CcFault, DeviceFault};
use crate::cc::fsp::{RpcFault, SECOND};
use crate::cc::mode::{
    cc_mode_in, cc_state, one_bit_tells_the_ppcie_mode, ppcie_mode_in, ppcie_state,
    two_bits_tell_the_cc_mode, CcMode, PpcieMode,
};
use crate::cc::rpc::{
    plan_at, reset_at, FspRpc, KnobOp, PlanJob, PlanState, ResetPhase, ResetQueues, ResetState,
};
use crate::cc::script::{
    count_reads, lemma_count_no_reads, lemma_count_reads_append, script_of, Cond, Instr, Script,
    ScriptEnd, ScriptState, Stop, Wait, What,
};
use crate::kernel::{Op, Procedure, Reply, Request, Step};
use crate::pci_dev::{PciDev, ResetRequest, SysfsReset};

verus! {

pub const NV_PMC_BOOT_0: u32 = 0x0;

/// CC state lives in secure scratch, bits 1:0: 0 off, 1 on, 3 devtools.
pub const CC_STATE_HOPPER: u32 = 0x1182cc;

pub const CC_STATE_BLACKWELL: u32 = 0x590;

/// PPCIE state is bit 5 of that same Hopper scratch register.
pub const PPCIE_STATE_HOPPER: u32 = 0x1182cc;

pub const PPCIE_STATE_HOPPER_BIT: u32 = 0x20;

pub const PPCIE_STATE_SWITCH: u32 = 0x28c50;

pub const PPCIE_STATE_SWITCH_BIT: u32 = 0x1;

pub const BOOT_COMPLETE_OK: u32 = 0xff;

/// What a register reads that cannot be reached.
pub const ALL_ONES: u32 = 0xffff_ffff;

// --- Booting -----------------------------------------------------------------

/// Blackwell keeps a BAR0 firewall up during boot; every register
/// reads all-ones until the FSP lowers it.
pub open spec fn bar0_code(chip: Chip) -> Seq<Instr> {
    if chip.hopper {
        seq![]
    } else {
        seq![
            Instr::Await(
                Wait {
                    what: What::Bar0Firewall,
                    cond: Cond::IsNot(NV_PMC_BOOT_0, ALL_ONES),
                    timeout: (15 * SECOND) as u64,
                },
            ),
        ]
    }
}

/// Wait until the FSP reports boot complete (scratch reads 0xff).
pub open spec fn boot_code(chip: Chip) -> Seq<Instr> {
    bar0_code(chip) + seq![
        Instr::Await(
            Wait {
                what: What::GpuBoot,
                cond: Cond::Is(chip.boot_complete, BOOT_COMPLETE_OK),
                timeout: (10 * SECOND) as u64,
            },
        ),
    ]
}

pub open spec fn switch_boot_code(switch: Switch) -> Seq<Instr> {
    seq![
        Instr::Await(
            Wait {
                what: What::SwitchBoot,
                cond: Cond::Is(switch.boot_complete, BOOT_COMPLETE_OK),
                timeout: (10 * SECOND) as u64,
            },
        ),
    ]
}

pub fn wait_for_bar0(chip: Chip) -> (code: Vec<Instr>)
    ensures
        code@ == bar0_code(chip),
{
    let mut code: Vec<Instr> = Vec::new();
    if !chip.hopper {
        code.push(
            Instr::Await(
                Wait {
                    what: What::Bar0Firewall,
                    cond: Cond::IsNot(NV_PMC_BOOT_0, ALL_ONES),
                    timeout: 15 * SECOND,
                },
            ),
        );
    }
    assert(code@ =~= bar0_code(chip));
    code
}

pub fn boot_program(chip: Chip) -> (code: Vec<Instr>)
    ensures
        code@ == boot_code(chip),
{
    let mut code: Vec<Instr> = wait_for_bar0(chip);
    code.push(
        Instr::Await(
            Wait {
                what: What::GpuBoot,
                cond: Cond::Is(chip.boot_complete, BOOT_COMPLETE_OK),
                timeout: 10 * SECOND,
            },
        ),
    );
    assert(code@ =~= boot_code(chip));
    code
}

pub fn switch_boot_program(switch: Switch) -> (code: Vec<Instr>)
    ensures
        code@ == switch_boot_code(switch),
{
    let mut code: Vec<Instr> = Vec::new();
    code.push(
        Instr::Await(
            Wait {
                what: What::SwitchBoot,
                cond: Cond::Is(switch.boot_complete, BOOT_COMPLETE_OK),
                timeout: 10 * SECOND,
            },
        ),
    );
    assert(code@ =~= switch_boot_code(switch));
    code
}

/// Waiting reads nothing into the output, and one read one dword.
pub proof fn lemma_reads_after_waits(waits: Seq<Instr>, register: u32)
    requires
        forall|i: int| 0 <= i < waits.len() ==> #[trigger] waits[i] is Await,
    ensures
        count_reads(waits) == 0,
        count_reads(waits + seq![Instr::Read(register)]) == 1,
{
    lemma_count_no_reads(waits);
    lemma_count_reads_append(waits, seq![Instr::Read(register)]);
    reveal_with_fuel(count_reads, 2);
}

// --- Readouts ----------------------------------------------------------------

/// What the end of a register program means.
pub trait Reading: Sized {
    type Value;

    /// How many registers it is read from.
    spec fn registers(&self) -> nat;

    spec fn comes_to(&self, end: ScriptEnd) -> Result<Self::Value, CcFault>;

    fn finish(self, end: Result<Vec<u32>, Stop>) -> (r: Result<Self::Value, CcError>)
        requires
            end matches Ok(out) ==> out.len() == self.registers(),
        ensures
            readout_end(r) == self.comes_to(script_end(end)),
    ;
}

pub open spec fn script_end(end: Result<Vec<u32>, Stop>) -> ScriptEnd {
    match end {
        Ok(out) => Ok(out@),
        Err(stop) => Err(stop),
    }
}

pub open spec fn readout_end<T>(r: Result<T, CcError>) -> Result<T, CcFault> {
    match r {
        Ok(value) => Ok(value),
        Err(err) => Err(err@),
    }
}

/// A register program, and what its end means.
pub struct Readout<R> {
    script: Script,
    reading: R,
}

impl<R: Reading> Readout<R> {
    pub closed spec fn script(&self) -> ScriptState {
        self.script@
    }

    pub closed spec fn reading(&self) -> R {
        self.reading
    }

    /// Whether it reads as many registers as it takes.
    pub open spec fn is_complete(&self) -> bool {
        &&& self.script().well_formed()
        &&& count_reads(self.script().code) == self.reading().registers()
    }

    /// Whether it is about to run `code`, to find out `reading`.
    pub open spec fn starts(&self, code: Seq<Instr>, reading: R) -> bool {
        self.script() == script_of(code) && self.reading() == reading
    }

    pub fn new(code: Vec<Instr>, reading: R) -> (r: Self)
        requires
            code.len() > 0,
            count_reads(code@) == reading.registers(),
        ensures
            r.starts(code@, reading),
            r.well_formed(),
    {
        Readout { script: Script::new(code), reading }
    }
}

impl<R: Reading> Procedure for Readout<R> {
    type Output = Result<R::Value, CcError>;

    open spec fn well_formed(&self) -> bool {
        self.is_complete()
    }

    open spec fn request(&self) -> Request {
        self.script().request()
    }

    fn op(&self) -> (op: Op) {
        let ghost _now = (self.well_formed(), self.request());
        self.script.op()
    }

    fn resume(self, reply: Reply) -> (step: Step<Self, Self::Output>)
        ensures
            match self.script().after(reply) {
                Step::Next(script) => step matches Step::Next(next) && next.script() == script
                    && next.reading() == self.reading(),
                Step::Done(end) => step matches Step::Done(r) && readout_end(r)
                    == self.reading().comes_to(end),
            },
    {
        let ghost _now = (self.well_formed(), self.request());
        let reading: R = self.reading;
        match self.script.resume(reply) {
            Step::Next(script) => Step::Next(Readout { script, reading }),
            Step::Done(end) => Step::Done(reading.finish(end)),
        }
    }
}

/// Whether a device has booted.
#[derive(Clone, Copy, Debug)]
pub struct Booted;

impl Reading for Booted {
    type Value = ();

    open spec fn registers(&self) -> nat {
        0
    }

    open spec fn comes_to(&self, end: ScriptEnd) -> Result<(), CcFault> {
        match end {
            Ok(_) => Ok(()),
            Err(stop) => Err(stop_error(stop)),
        }
    }

    fn finish(self, end: Result<Vec<u32>, Stop>) -> (r: Result<(), CcError>) {
        match end {
            Ok(_) => Ok(()),
            Err(stop) => Err(stopped(stop)),
        }
    }
}

/// The CC mode of the device at an address.
#[derive(Debug)]
pub struct CcReading {
    pub bdf: String,
}

impl Reading for CcReading {
    type Value = CcMode;

    open spec fn registers(&self) -> nat {
        1
    }

    open spec fn comes_to(&self, end: ScriptEnd) -> Result<CcMode, CcFault> {
        match end {
            Ok(out) => match cc_state(out[0]) {
                Some(mode) => Ok(mode),
                None => Err(CcFault::Device(self.bdf@, DeviceFault::InvalidCcState)),
            },
            Err(stop) => Err(stop_error(stop)),
        }
    }

    fn finish(self, end: Result<Vec<u32>, Stop>) -> (r: Result<CcMode, CcError>) {
        match end {
            Ok(out) => match cc_mode_in(out[0]) {
                Some(mode) => Ok(mode),
                None => Err(CcError::Device(self.bdf, DeviceFault::InvalidCcState)),
            },
            Err(stop) => Err(stopped(stop)),
        }
    }
}

/// The PPCIE mode that a bit tells.
#[derive(Clone, Copy, Debug)]
pub struct PpcieReading {
    pub bit: u32,
}

impl Reading for PpcieReading {
    type Value = PpcieMode;

    open spec fn registers(&self) -> nat {
        1
    }

    open spec fn comes_to(&self, end: ScriptEnd) -> Result<PpcieMode, CcFault> {
        match end {
            Ok(out) => Ok(ppcie_mode_in(out[0], self.bit)),
            Err(stop) => Err(stop_error(stop)),
        }
    }

    fn finish(self, end: Result<Vec<u32>, Stop>) -> (r: Result<PpcieMode, CcError>) {
        match end {
            Ok(out) => Ok(ppcie_state(out[0], self.bit)),
            Err(stop) => Err(stopped(stop)),
        }
    }
}

// --- Setting a mode ----------------------------------------------------------

/// What is done to set a mode.
pub enum SetPhase {
    /// Waiting for the device to boot.  FSP RPC may come up before the
    /// boot-complete scratch; if it never does, the RPC polls fail with a
    /// clear error.
    Booting(Script),
    /// Taking over the RPC channel.
    Taking(ResetQueues),
    /// Working through the knobs.
    Planning(PlanJob),
}

/// The setting of a mode.
pub struct SetMode {
    bdf: String,
    ppcie: bool,
    rpc: FspRpc,
    plan: Vec<KnobOp>,
    phase: SetPhase,
}

pub enum SetPhaseState {
    Booting(ScriptState),
    Taking(ResetState),
    Planning(PlanState),
}

pub struct SetState {
    /// The device's address.
    pub bdf: Seq<char>,
    /// Whether this is a PPCIE mode, and a failure is told as one to set it.
    pub ppcie: bool,
    /// The channel its FSP is reached through.
    pub rpc: FspRpc,
    /// What to do with its knobs.
    pub plan: Seq<KnobOp>,
    pub phase: SetPhaseState,
}

impl View for SetPhase {
    type V = SetPhaseState;

    open spec fn view(&self) -> SetPhaseState {
        match *self {
            SetPhase::Booting(script) => SetPhaseState::Booting(script@),
            SetPhase::Taking(reset) => SetPhaseState::Taking(reset@),
            SetPhase::Planning(job) => SetPhaseState::Planning(job@),
        }
    }
}

impl View for SetMode {
    type V = SetState;

    closed spec fn view(&self) -> SetState {
        SetState {
            bdf: self.bdf@,
            ppcie: self.ppcie,
            rpc: self.rpc,
            plan: self.plan@,
            phase: self.phase@,
        }
    }
}

/// The setting of a mode, about to start by waiting for `boot`.
pub open spec fn set_of(
    bdf: Seq<char>,
    ppcie: bool,
    rpc: FspRpc,
    plan: Seq<KnobOp>,
    boot: Seq<Instr>,
) -> SetState {
    SetState { bdf, ppcie, rpc, plan, phase: SetPhaseState::Booting(script_of(boot)) }
}

impl SetState {
    pub open spec fn well_formed(self) -> bool {
        &&& self.plan.len() > 0
        &&& match self.phase {
            SetPhaseState::Booting(script) => script.well_formed(),
            SetPhaseState::Taking(reset) => reset.well_formed(),
            SetPhaseState::Planning(job) => job.well_formed(),
        }
    }

    pub open spec fn request(self) -> Request {
        match self.phase {
            SetPhaseState::Booting(script) => script.request(),
            SetPhaseState::Taking(reset) => reset.script.request(),
            SetPhaseState::Planning(job) => job.job.exchange.script.request(),
        }
    }

    pub open spec fn to(self, phase: SetPhaseState) -> Step<SetState, Result<(), CcFault>> {
        Step::Next(SetState { phase, ..self })
    }

    /// A failed knob operation.
    pub open spec fn failure(self, err: (RpcFault, Seq<u32>)) -> CcFault {
        if self.ppcie {
            CcFault::SetPpcie(self.bdf, err)
        } else {
            CcFault::Rpc(err)
        }
    }

    pub open spec fn after(self, reply: Reply) -> Step<SetState, Result<(), CcFault>> {
        match self.phase {
            SetPhaseState::Booting(script) => match script.after(reply) {
                Step::Next(script) => self.to(SetPhaseState::Booting(script)),
                Step::Done(_) => match self.rpc {
                    FspRpc::Emem => self.to(SetPhaseState::Taking(reset_at(ResetPhase::Commands))),
                    FspRpc::Mnoc => self.to(
                        SetPhaseState::Planning(plan_at(FspRpc::Mnoc, self.plan, 0)),
                    ),
                },
            },
            SetPhaseState::Taking(reset) => match reset.after(reply) {
                Step::Next(reset) => self.to(SetPhaseState::Taking(reset)),
                Step::Done(rpc) => self.to(SetPhaseState::Planning(plan_at(rpc, self.plan, 0))),
            },
            SetPhaseState::Planning(job) => match job.after(reply) {
                Step::Next(job) => self.to(SetPhaseState::Planning(job)),
                Step::Done(Ok(())) => Step::Done(Ok(())),
                Step::Done(Err(err)) => Step::Done(Err(self.failure(err))),
            },
        }
    }
}

pub open spec fn set_step(step: Step<SetMode, Result<(), CcError>>) -> Step<
    SetState,
    Result<(), CcFault>,
> {
    match step {
        Step::Next(set) => Step::Next(set@),
        Step::Done(r) => Step::Done(readout_end(r)),
    }
}

fn copy_plan(plan: &Vec<KnobOp>) -> (r: Vec<KnobOp>)
    ensures
        r@ == plan@,
{
    let mut r: Vec<KnobOp> = Vec::new();
    let mut i: usize = 0;
    while i < plan.len()
        invariant
            i <= plan.len(),
            r@ =~= plan@.take(i as int),
        decreases plan.len() - i,
    {
        r.push(plan[i]);
        i = i + 1;
    }
    assert(plan@.take(i as int) =~= plan@);
    r
}

impl SetMode {
    pub fn new(bdf: &str, ppcie: bool, rpc: FspRpc, plan: Vec<KnobOp>, boot: Vec<Instr>) -> (r:
        SetMode)
        requires
            plan.len() > 0,
            boot.len() > 0,
        ensures
            r@ == set_of(bdf@, ppcie, rpc, plan@, boot@),
            r.well_formed(),
    {
        SetMode {
            bdf: bdf.to_string(),
            ppcie,
            rpc,
            plan,
            phase: SetPhase::Booting(Script::new(boot)),
        }
    }
}

impl Procedure for SetMode {
    type Output = Result<(), CcError>;

    open spec fn well_formed(&self) -> bool {
        self@.well_formed()
    }

    open spec fn request(&self) -> Request {
        self@.request()
    }

    fn op(&self) -> (op: Op) {
        let ghost _now = (self.well_formed(), self.request());
        match &self.phase {
            SetPhase::Booting(script) => script.op(),
            SetPhase::Taking(reset) => reset.op(),
            SetPhase::Planning(job) => job.op(),
        }
    }

    fn resume(self, reply: Reply) -> (step: Step<Self, Self::Output>)
        ensures
            set_step(step) == self@.after(reply),
    {
        let ghost _now = (self.well_formed(), self.request());
        let SetMode { bdf, ppcie, rpc, plan, phase } = self;
        match phase {
            SetPhase::Booting(script) => match script.resume(reply) {
                Step::Next(script) => Step::Next(
                    SetMode { bdf, ppcie, rpc, plan, phase: SetPhase::Booting(script) },
                ),
                Step::Done(_) => {
                    let phase: SetPhase = match rpc {
                        FspRpc::Emem => SetPhase::Taking(FspRpc::emem()),
                        FspRpc::Mnoc => SetPhase::Planning(
                            PlanJob::new(FspRpc::mnoc(), copy_plan(&plan)),
                        ),
                    };
                    Step::Next(SetMode { bdf, ppcie, rpc, plan, phase })
                },
            },
            SetPhase::Taking(reset) => match reset.resume(reply) {
                Step::Next(reset) => Step::Next(
                    SetMode { bdf, ppcie, rpc, plan, phase: SetPhase::Taking(reset) },
                ),
                Step::Done(taken) => {
                    let phase: SetPhase = SetPhase::Planning(
                        PlanJob::new(taken, copy_plan(&plan)),
                    );
                    Step::Next(SetMode { bdf, ppcie, rpc, plan, phase })
                },
            },
            SetPhase::Planning(job) => match job.resume(reply) {
                Step::Next(job) => Step::Next(
                    SetMode { bdf, ppcie, rpc, plan, phase: SetPhase::Planning(job) },
                ),
                Step::Done(Ok(())) => Step::Done(Ok(())),
                Step::Done(Err(err)) => if ppcie {
                    Step::Done(Err(CcError::SetPpcie(bdf, err)))
                } else {
                    Step::Done(Err(CcError::Rpc(err)))
                },
            },
        }
    }
}

// --- Resetting ---------------------------------------------------------------

/// A reset, and the boot that follows it.
pub enum ResetDevice {
    /// Asking for the reset, with the boot to wait for.
    Resetting(SysfsReset, Vec<Instr>),
    /// Waiting for the device to boot back up.
    Booting(Readout<Booted>),
}

/// Whether `reset` is about to reset `dev`, and to wait for `boot`.
pub open spec fn resets(reset: ResetDevice, dev: PciDev, boot: Seq<Instr>) -> bool {
    reset matches ResetDevice::Resetting(request, code) && request@ == (ResetRequest {
        bdf: dev.bdf@,
        path: crate::path::joined_path(dev.path@, "reset"@),
    }) && code@ == boot
}

impl ResetDevice {
    pub fn new(dev: &PciDev, boot: Vec<Instr>) -> (r: ResetDevice)
        requires
            boot.len() > 0,
            count_reads(boot@) == 0,
        ensures
            resets(r, *dev, boot@),
            r.well_formed(),
    {
        ResetDevice::Resetting(dev.sysfs_reset(), boot)
    }
}

impl Procedure for ResetDevice {
    type Output = Result<(), CcError>;

    open spec fn well_formed(&self) -> bool {
        match *self {
            ResetDevice::Resetting(_, boot) => boot.len() > 0 && count_reads(boot@) == 0,
            ResetDevice::Booting(readout) => readout.is_complete(),
        }
    }

    open spec fn request(&self) -> Request {
        match *self {
            ResetDevice::Resetting(reset, _) => Request::WriteText(reset@.path, "1"@),
            ResetDevice::Booting(readout) => readout.script().request(),
        }
    }

    fn op(&self) -> (op: Op) {
        let ghost _now = (self.well_formed(), self.request());
        match self {
            ResetDevice::Resetting(reset, _) => reset.op(),
            ResetDevice::Booting(readout) => readout.op(),
        }
    }

    fn resume(self, reply: Reply) -> (step: Step<Self, Self::Output>)
        ensures
            match self {
                ResetDevice::Resetting(reset, boot) => match reset@.end(reply) {
                    Ok(()) => step matches Step::Next(ResetDevice::Booting(readout))
                        && readout.starts(boot@, Booted),
                    Err(err) => step matches Step::Done(r) && readout_end(r) == Err::<
                        (),
                        CcFault,
                    >(CcFault::Io(err)),
                },
                ResetDevice::Booting(readout) => match readout.script().after(reply) {
                    Step::Next(script) => step matches Step::Next(ResetDevice::Booting(next))
                        && next.script() == script,
                    Step::Done(end) => step matches Step::Done(r) && readout_end(r)
                        == Booted.comes_to(end),
                },
            },
    {
        let ghost _now = (self.well_formed(), self.request());
        match self {
            ResetDevice::Resetting(reset, boot) => match reset.resume(reply) {
                Step::Next(reset) => Step::Next(ResetDevice::Resetting(reset, boot)),
                Step::Done(Ok(())) => Step::Next(ResetDevice::Booting(Readout::new(boot, Booted))),
                Step::Done(Err(err)) => Step::Done(Err(CcError::Io(err))),
            },
            ResetDevice::Booting(readout) => match readout.resume(reply) {
                Step::Next(next) => Step::Next(ResetDevice::Booting(next)),
                Step::Done(r) => Step::Done(r),
            },
        }
    }
}

// --- What is read and waited for ---------------------------------------------

/// A GPU is waited for until its boot register reads ff, for ten seconds; a
/// Blackwell first until its firewall is down, for fifteen. A switch is waited
/// for like a GPU.
pub proof fn booting_is_waited_for(chip: Chip, switch: Switch)
    ensures
        ({
            let boot = Instr::Await(
                Wait {
                    what: What::GpuBoot,
                    cond: Cond::Is(chip.boot_complete, 0xff),
                    timeout: 10_000_000_000,
                },
            );
            let firewall = Instr::Await(
                Wait {
                    what: What::Bar0Firewall,
                    cond: Cond::IsNot(0, 0xffff_ffff),
                    timeout: 15_000_000_000,
                },
            );
            &&& chip.hopper ==> boot_code(chip) == seq![boot] && bar0_code(chip) == Seq::<
                Instr,
            >::empty()
            &&& !chip.hopper ==> boot_code(chip) == seq![firewall, boot] && bar0_code(chip) == seq![
                firewall,
            ]
        }),
        switch_boot_code(switch) == seq![
            Instr::Await(
                Wait {
                    what: What::SwitchBoot,
                    cond: Cond::Is(switch.boot_complete, 0xff),
                    timeout: 10_000_000_000,
                },
            ),
        ],
{
    assert(chip.hopper ==> boot_code(chip) =~= seq![boot_code(chip)[0]]);
    assert(!chip.hopper ==> boot_code(chip) =~= seq![boot_code(chip)[0], boot_code(chip)[1]]);
}

/// What a state register says of a GPU or a switch, and where that register is.
pub proof fn a_state_register_says_the_mode(cc: CcReading, word: u32, stop: Stop)
    ensures
        CC_STATE_HOPPER == 0x1182cc,
        CC_STATE_BLACKWELL == 0x590,
        PPCIE_STATE_HOPPER == 0x1182cc,
        PPCIE_STATE_SWITCH == 0x28c50,
        NV_PMC_BOOT_0 == 0,
        ALL_ONES == 0xffff_ffff,
        BOOT_COMPLETE_OK == 0xff,
        word % 4 == 0 ==> cc.comes_to(Ok(seq![word])) == Ok::<CcMode, CcFault>(CcMode::Off),
        word % 4 == 1 ==> cc.comes_to(Ok(seq![word])) == Ok::<CcMode, CcFault>(CcMode::On),
        word % 4 == 3 ==> cc.comes_to(Ok(seq![word])) == Ok::<CcMode, CcFault>(CcMode::DevTools),
        word % 4 == 2 ==> cc.comes_to(Ok(seq![word])) == Err::<CcMode, CcFault>(
            CcFault::Device(cc.bdf@, DeviceFault::InvalidCcState),
        ),
        (PpcieReading { bit: PPCIE_STATE_HOPPER_BIT }).comes_to(Ok(seq![word])) == Ok::<
            PpcieMode,
            CcFault,
        >(
            if (word / 32) % 2 == 1 {
                PpcieMode::On
            } else {
                PpcieMode::Off
            },
        ),
        (PpcieReading { bit: PPCIE_STATE_SWITCH_BIT }).comes_to(Ok(seq![word])) == Ok::<
            PpcieMode,
            CcFault,
        >(
            if word % 2 == 1 {
                PpcieMode::On
            } else {
                PpcieMode::Off
            },
        ),
        cc.comes_to(Err(stop)) is Err,
        (PpcieReading { bit: word }).comes_to(Err(stop)) is Err,
        Booted.comes_to(Err(stop)) is Err,
        Booted.comes_to(Ok(seq![])) == Ok::<(), CcFault>(()),
{
    two_bits_tell_the_cc_mode(word);
    one_bit_tells_the_ppcie_mode(word);
}

/// Setting a mode goes on from the boot to the channel and from there to the
/// knobs, whatever the wait for the boot came to; a knob that fails is told as
/// such, and with the address where it is a PPCIE mode.
pub proof fn a_mode_is_set_in_three_steps(
    set: SetState,
    script: ScriptState,
    reset: ResetState,
    job: PlanState,
    reply: Reply,
)
    ensures
        ({
            let booting = SetState { phase: SetPhaseState::Booting(script), ..set };
            let taking = SetState { phase: SetPhaseState::Taking(reset), ..set };
            let planning = SetState { phase: SetPhaseState::Planning(job), ..set };
            &&& script.after(reply) is Done ==> (booting.after(reply) matches Step::Next(next)
                && next.plan == set.plan && next.rpc == set.rpc && next.bdf == set.bdf && next.ppcie
                == set.ppcie && match set.rpc {
                FspRpc::Emem => next.phase == SetPhaseState::Taking(
                    reset_at(ResetPhase::Commands),
                ),
                FspRpc::Mnoc => next.phase == SetPhaseState::Planning(
                    plan_at(FspRpc::Mnoc, set.plan, 0),
                ),
            })
            &&& reset.after(reply) is Done ==> (taking.after(reply) matches Step::Next(next)
                && next.plan == set.plan && next.phase is Planning)
            &&& job.after(reply) matches Step::Done(end) ==> planning.after(reply) == Step::<
                SetState,
                Result<(), CcFault>,
            >::Done(
                match end {
                    Ok(()) => Ok(()),
                    Err(err) => Err(
                        if set.ppcie {
                            CcFault::SetPpcie(set.bdf, err)
                        } else {
                            CcFault::Rpc(err)
                        },
                    ),
                },
            )
        }),
{
}

/// Setting a mode starts by waiting for the boot, and a reset by writing 1 to the
/// file for it below the device's directory.
pub proof fn where_it_starts(
    bdf: Seq<char>,
    ppcie: bool,
    rpc: FspRpc,
    plan: Seq<KnobOp>,
    boot: Seq<Instr>,
    reset: ResetDevice,
    dev: PciDev,
)
    requires
        dev.path@.len() > 0,
        dev.path@.last() != '/',
    ensures
        set_of(bdf, ppcie, rpc, plan, boot) == (SetState {
            bdf,
            ppcie,
            rpc,
            plan,
            phase: SetPhaseState::Booting(script_of(boot)),
        }),
        resets(reset, dev, boot) ==> reset.request() == Request::WriteText(
            dev.path@ + "/reset"@,
            "1"@,
        ),
{
    reveal_strlit("reset");
    reveal_strlit("/reset");
    assert(crate::path::joined_path(dev.path@, "reset"@) =~= dev.path@ + "/reset"@);
}

/// The setting of a mode stands where its state says, and ends in what it hands
/// out; a readout ends in its value or its error.
pub proof fn where_a_setting_stands(
    set: SetMode,
    err: CcError,
    mode: CcMode,
    out: Vec<u32>,
    stop: Stop,
)
    ensures
        set_step(Step::Next(set)) == Step::<SetState, Result<(), CcFault>>::Next(set@),
        set_step(Step::Done(Ok(()))) == Step::<SetState, Result<(), CcFault>>::Done(Ok(())),
        set_step(Step::Done(Err(err))) == Step::<SetState, Result<(), CcFault>>::Done(Err(err@)),
        readout_end(Ok::<CcMode, CcError>(mode)) == Ok::<CcMode, CcFault>(mode),
        readout_end(Err::<CcMode, CcError>(err)) == Err::<CcMode, CcFault>(err@),
        script_end(Ok(out)) == ScriptEnd::Ok(out@),
        script_end(Err(stop)) == ScriptEnd::Err(stop),
{
}

} // verus!
