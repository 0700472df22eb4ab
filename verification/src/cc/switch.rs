//! NVIDIA NVSwitches.

use vstd::prelude::*;

use crate::cc::chip::{
    a_switch_is_known_by_its_boot_register, known_switch, switch_for, Switch,
};
use crate::cc::discover::{discover_switches, Search, Wanted, NVIDIA};
use crate::cc::error::{CcError, CcFault, DeviceFault};
use crate::cc::job::{
    lemma_reads_after_waits, resets, set_of, switch_boot_code, switch_boot_program, Booted,
    PpcieReading, Readout, ResetDevice, SetMode, ALL_ONES, NV_PMC_BOOT_0, PPCIE_STATE_SWITCH,
    PPCIE_STATE_SWITCH_BIT,
};
use crate::cc::mode::{ppcie_ops, ppcie_plan, PpcieMode};
use crate::cc::open::{opening_of, Enumeration, EnumerationState, Kind, Opening, OpeningState};
use crate::cc::rpc::{FspRpc, KnobOp};
use crate::cc::script::Instr;
use crate::inquiry::Survey;
use crate::kernel::{Procedure, Reply};
use crate::pci_dev::{DevState, PciDev};
use crate::sysfs::{devices_dir, Sysfs, SYSFS};

verus! {

/// One NVSwitch.  PPCIE is the only mode it carries; there is no
/// per-switch CC.
#[derive(Debug)]
pub struct NvSwitch {
    pub pci: PciDev,
    pub switch: Switch,
}

/// What makes a device an NVSwitch: NVIDIA made it, and its BOOT_0 says which.
#[derive(Clone, Copy, Debug)]
pub struct SwitchKind;

impl Kind for SwitchKind {
    type Model = Switch;

    type Device = NvSwitch;

    open spec fn identified(vendor: u16, device: u16) -> Result<SwitchKind, DeviceFault> {
        if vendor != NVIDIA {
            Err(DeviceFault::NotNvidia(vendor))
        } else {
            Ok(SwitchKind)
        }
    }

    open spec fn code(self) -> Seq<Instr> {
        seq![Instr::Read(NV_PMC_BOOT_0)]
    }

    open spec fn accepted(self, boot0: u32) -> Result<Switch, DeviceFault> {
        if boot0 == ALL_ONES {
            Err(DeviceFault::Bar0Inaccessible)
        } else {
            match known_switch(boot0) {
                Some(switch) => Ok(switch),
                None => Err(DeviceFault::NotPpcieSwitch(boot0)),
            }
        }
    }

    open spec fn parts(device: NvSwitch) -> (DevState, Switch) {
        (device.pci@, device.switch)
    }

    open spec fn wanted() -> Wanted {
        Wanted::Switches
    }

    fn identify(vendor: u16, device: u16) -> (r: Result<SwitchKind, DeviceFault>) {
        if vendor != NVIDIA {
            return Err(DeviceFault::NotNvidia(vendor));
        }
        Ok(SwitchKind)
    }

    fn program(self) -> (code: Vec<Instr>) {
        let mut code: Vec<Instr> = Vec::new();
        code.push(Instr::Read(NV_PMC_BOOT_0));
        proof {
            lemma_reads_after_waits(seq![], NV_PMC_BOOT_0);
            assert(code@ =~= self.code());
            assert(code@ =~= seq![] + seq![Instr::Read(NV_PMC_BOOT_0)]);
        }
        code
    }

    fn accept(self, boot0: u32) -> (r: Result<Switch, DeviceFault>) {
        if boot0 == ALL_ONES {
            return Err(DeviceFault::Bar0Inaccessible);
        }
        match switch_for(boot0) {
            Some(switch) => Ok(switch),
            None => Err(DeviceFault::NotPpcieSwitch(boot0)),
        }
    }

    fn assemble(pci: PciDev, model: Switch) -> (device: NvSwitch) {
        NvSwitch { pci, switch: model }
    }

    fn release(device: NvSwitch) -> (pci: PciDev) {
        device.pci
    }

    fn find(sysfs: &Sysfs) -> (search: Search) {
        discover_switches(sysfs)
    }
}

impl NvSwitch {
    pub fn open(bdf: &str) -> (r: Result<Opening<SwitchKind>, CcError>)
        ensures
            match r {
                Ok(started) => opening_of::<SwitchKind>(SYSFS@, bdf@) == Ok::<
                    OpeningState<SwitchKind>,
                    CcFault,
                >(started@) && started.well_formed(),
                Err(err) => opening_of::<SwitchKind>(SYSFS@, bdf@) == Err::<
                    OpeningState<SwitchKind>,
                    CcFault,
                >(err@),
            },
    {
        NvSwitch::open_in(&Sysfs::default(), bdf)
    }

    pub fn open_in(sysfs: &Sysfs, bdf: &str) -> (r: Result<Opening<SwitchKind>, CcError>)
        ensures
            match r {
                Ok(started) => opening_of::<SwitchKind>(sysfs.root(), bdf@) == Ok::<
                    OpeningState<SwitchKind>,
                    CcFault,
                >(started@) && started.well_formed(),
                Err(err) => opening_of::<SwitchKind>(sysfs.root(), bdf@) == Err::<
                    OpeningState<SwitchKind>,
                    CcFault,
                >(err@),
            },
    {
        Opening::start(sysfs, bdf)
    }

    /// [`discover_switches`] and open every one of them.  Fails on the first
    /// that cannot be opened.
    pub fn enumerate(sysfs: &Sysfs) -> (r: Enumeration<SwitchKind>)
        ensures
            r@ matches EnumerationState::Searching(root, Survey::First(inquest)) && root
                == sysfs.root() && inquest.inquiry().devices() == devices_dir(root)
                && inquest.inquiry().wanted() == Wanted::Switches && inquest.replies() == Seq::<
                Reply,
            >::empty(),
            r.well_formed(),
    {
        Enumeration::start(sysfs)
    }

    pub fn bdf(&self) -> (r: &str)
        ensures
            r@ == self.pci.bdf@,
    {
        self.pci.bdf.as_str()
    }

    pub fn wait_for_boot(&self) -> (r: Readout<Booted>)
        ensures
            r.starts(switch_boot_code(self.switch), Booted),
            r.well_formed(),
    {
        proof {
            lemma_reads_after_waits(switch_boot_code(self.switch), 0);
        }
        Readout::new(switch_boot_program(self.switch), Booted)
    }

    pub fn query_ppcie_mode(&self) -> (r: Readout<PpcieReading>)
        ensures
            r.starts(
                switch_boot_code(self.switch) + seq![Instr::Read(PPCIE_STATE_SWITCH)],
                PpcieReading { bit: PPCIE_STATE_SWITCH_BIT },
            ),
            r.well_formed(),
    {
        let mut code: Vec<Instr> = switch_boot_program(self.switch);
        code.push(Instr::Read(PPCIE_STATE_SWITCH));
        proof {
            lemma_reads_after_waits(switch_boot_code(self.switch), PPCIE_STATE_SWITCH);
            assert(code@ =~= switch_boot_code(self.switch) + seq![Instr::Read(PPCIE_STATE_SWITCH)]);
        }
        Readout::new(code, PpcieReading { bit: PPCIE_STATE_SWITCH_BIT })
    }

    /// EMEM, like Hopper: only Blackwell GPUs moved to MNOC.
    pub fn set_ppcie_mode(&self, mode: PpcieMode) -> (r: SetMode)
        ensures
            r@ == set_of(
                self.pci.bdf@,
                true,
                FspRpc::Emem,
                ppcie_ops(mode, false),
                switch_boot_code(self.switch),
            ),
            r.well_formed(),
    {
        let plan: Vec<KnobOp> = ppcie_plan(mode, false);
        SetMode::new(&self.pci.bdf, true, FspRpc::Emem, plan, switch_boot_program(self.switch))
    }

    pub fn reset(&self) -> (r: ResetDevice)
        ensures
            resets(r, self.pci, switch_boot_code(self.switch)),
            r.well_formed(),
    {
        proof {
            lemma_reads_after_waits(switch_boot_code(self.switch), 0);
        }
        ResetDevice::new(&self.pci, switch_boot_program(self.switch))
    }
}

/// A switch is known by NVIDIA's number and by the word at register 0: 7000a1 is
/// the one generation there is, and all ones is a switch that cannot be reached.
pub proof fn a_switch_is_known_by_its_words(vendor: u16, device: u16, word: u32)
    ensures
        SwitchKind::identified(vendor, device) is Ok <==> vendor == 0x10de,
        vendor != 0x10de ==> SwitchKind::identified(vendor, device) == Err::<
            SwitchKind,
            DeviceFault,
        >(DeviceFault::NotNvidia(vendor)),
        SwitchKind.code() == seq![Instr::Read(0)],
        SwitchKind.accepted(word) is Ok <==> word == 0x7000a1,
        SwitchKind.accepted(word) matches Ok(switch) ==> switch.boot0 == 0x7000a1
            && switch.boot_complete == 0x660bc,
        word == 0xffff_ffff ==> SwitchKind.accepted(word) == Err::<Switch, DeviceFault>(
            DeviceFault::Bar0Inaccessible,
        ),
        word != 0xffff_ffff && word != 0x7000a1 ==> SwitchKind.accepted(word) == Err::<
            Switch,
            DeviceFault,
        >(DeviceFault::NotPpcieSwitch(word)),
        SwitchKind::wanted() == Wanted::Switches,
{
    a_switch_is_known_by_its_boot_register(word);
}

/// An open switch is its PCI function and its generation.
pub proof fn a_switch_shows_its_parts(device: NvSwitch)
    ensures
        SwitchKind::parts(device).0 == device.pci@,
        SwitchKind::parts(device).1 == device.switch,
{
}

} // verus!
