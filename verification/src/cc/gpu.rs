//! CC-capable NVIDIA GPUs.

use vstd::prelude::*;

use crate::cc::chip::{a_part_is_known_by_its_number, coherent_parts_are_these};
use crate::cc::chip::{chip_for, is_c2c, is_coherent, known_chip, Chip};
use crate::cc::discover::{discover, Search, Wanted, NVIDIA};
use crate::cc::error::{CcError, CcFault, DeviceFault};
use crate::cc::job::{
    bar0_code, boot_code, boot_program, lemma_reads_after_waits, resets, set_of, wait_for_bar0,
    Booted, CcReading, PpcieReading, Readout, ResetDevice, SetMode, ALL_ONES, CC_STATE_BLACKWELL,
    CC_STATE_HOPPER, NV_PMC_BOOT_0, PPCIE_STATE_HOPPER, PPCIE_STATE_HOPPER_BIT,
};
use crate::cc::mode::{cc_ops, cc_plan, ppcie_ops, ppcie_plan, CcMode, PpcieMode};
use crate::cc::open::{opening_of, Enumeration, EnumerationState, Kind, Opening, OpeningState};
use crate::cc::rpc::{FspRpc, KnobOp};
use crate::cc::script::Instr;
use crate::inquiry::Survey;
use crate::kernel::{Procedure, Reply};
use crate::pci_dev::{DevState, PciDev};
use crate::sysfs::{devices_dir, Sysfs, SYSFS};

verus! {

/// One CC-capable NVIDIA GPU.
#[derive(Debug)]
pub struct Gpu {
    pub pci: PciDev,
    pub chip: Chip,
    pub c2c: bool,
}

/// What makes a device a CC-capable GPU: the generation it belongs to.
#[derive(Clone, Copy, Debug)]
pub struct GpuKind {
    pub chip: Chip,
    pub c2c: bool,
}

impl Kind for GpuKind {
    type Model = GpuKind;

    type Device = Gpu;

    open spec fn identified(vendor: u16, device: u16) -> Result<GpuKind, DeviceFault> {
        if vendor != NVIDIA {
            Err(DeviceFault::NotNvidia(vendor))
        } else {
            match known_chip(device) {
                Some(chip) => Ok(GpuKind { chip, c2c: is_coherent(device) }),
                None => Err(DeviceFault::NotCcCapable(device)),
            }
        }
    }

    open spec fn code(self) -> Seq<Instr> {
        bar0_code(self.chip) + seq![Instr::Read(NV_PMC_BOOT_0)]
    }

    open spec fn accepted(self, boot0: u32) -> Result<GpuKind, DeviceFault> {
        if boot0 == ALL_ONES {
            Err(DeviceFault::Bar0Inaccessible)
        } else if boot0 == 0xbadf_0200 || boot0 == 0xbad0_0200 {
            Err(DeviceFault::SecurityFault(boot0))
        } else {
            Ok(self)
        }
    }

    open spec fn parts(device: Gpu) -> (DevState, GpuKind) {
        (device.pci@, GpuKind { chip: device.chip, c2c: device.c2c })
    }

    open spec fn wanted() -> Wanted {
        Wanted::Gpus
    }

    fn identify(vendor: u16, device: u16) -> (r: Result<GpuKind, DeviceFault>) {
        if vendor != NVIDIA {
            return Err(DeviceFault::NotNvidia(vendor));
        }
        match chip_for(device) {
            Some(chip) => Ok(GpuKind { chip, c2c: is_c2c(device) }),
            None => Err(DeviceFault::NotCcCapable(device)),
        }
    }

    fn program(self) -> (code: Vec<Instr>) {
        let mut code: Vec<Instr> = wait_for_bar0(self.chip);
        code.push(Instr::Read(NV_PMC_BOOT_0));
        proof {
            lemma_reads_after_waits(bar0_code(self.chip), NV_PMC_BOOT_0);
            assert(code@ =~= self.code());
        }
        code
    }

    fn accept(self, boot0: u32) -> (r: Result<GpuKind, DeviceFault>) {
        if boot0 == ALL_ONES {
            return Err(DeviceFault::Bar0Inaccessible);
        }
        if boot0 == 0xbadf_0200 || boot0 == 0xbad0_0200 {
            return Err(DeviceFault::SecurityFault(boot0));
        }
        Ok(self)
    }

    fn assemble(pci: PciDev, model: GpuKind) -> (device: Gpu) {
        Gpu { pci, chip: model.chip, c2c: model.c2c }
    }

    fn release(device: Gpu) -> (pci: PciDev) {
        device.pci
    }

    fn find(sysfs: &Sysfs) -> (search: Search) {
        discover(sysfs)
    }
}

/// The register that holds a GPU's CC state.
pub open spec fn cc_state_register(chip: Chip) -> u32 {
    if chip.hopper {
        CC_STATE_HOPPER
    } else {
        CC_STATE_BLACKWELL
    }
}

/// The channel that a GPU's FSP is reached through.
pub open spec fn channel(chip: Chip) -> FspRpc {
    if chip.hopper {
        FspRpc::Emem
    } else {
        FspRpc::Mnoc
    }
}

proof fn lemma_boot_code(chip: Chip, register: u32)
    ensures
        boot_code(chip).len() > 0,
        crate::cc::script::count_reads(boot_code(chip)) == 0,
        crate::cc::script::count_reads(boot_code(chip) + seq![Instr::Read(register)]) == 1,
{
    lemma_reads_after_waits(boot_code(chip), register);
}

impl Gpu {
    /// Open a GPU by PCI address (`0000:65:00.0`; domain optional).
    pub fn open(bdf: &str) -> (r: Result<Opening<GpuKind>, CcError>)
        ensures
            match r {
                Ok(started) => opening_of::<GpuKind>(SYSFS@, bdf@) == Ok::<
                    OpeningState<GpuKind>,
                    CcFault,
                >(started@) && started.well_formed(),
                Err(err) => opening_of::<GpuKind>(SYSFS@, bdf@) == Err::<
                    OpeningState<GpuKind>,
                    CcFault,
                >(err@),
            },
    {
        Gpu::open_in(&Sysfs::default(), bdf)
    }

    pub fn open_in(sysfs: &Sysfs, bdf: &str) -> (r: Result<Opening<GpuKind>, CcError>)
        ensures
            match r {
                Ok(started) => opening_of::<GpuKind>(sysfs.root(), bdf@) == Ok::<
                    OpeningState<GpuKind>,
                    CcFault,
                >(started@) && started.well_formed(),
                Err(err) => opening_of::<GpuKind>(sysfs.root(), bdf@) == Err::<
                    OpeningState<GpuKind>,
                    CcFault,
                >(err@),
            },
    {
        Opening::start(sysfs, bdf)
    }

    /// [`discover`] and open every CC-capable GPU.  Fails on the first GPU
    /// that cannot be opened; open individually for per-GPU error handling.
    pub fn enumerate(sysfs: &Sysfs) -> (r: Enumeration<GpuKind>)
        ensures
            r@ matches EnumerationState::Searching(root, Survey::First(inquest)) && root
                == sysfs.root() && inquest.inquiry().devices() == devices_dir(root)
                && inquest.inquiry().wanted() == Wanted::Gpus && inquest.replies() == Seq::<
                Reply,
            >::empty(),
            r.well_formed(),
    {
        Enumeration::start(sysfs)
    }

    pub fn bdf(&self) -> (r: &str)
        ensures
            r@ == self.pci.bdf@,
    {
        self.pci.bdf.as_str()
    }

    pub fn devid(&self) -> (r: u16)
        ensures
            r == self.pci.device,
    {
        self.pci.device
    }

    /// Wait until the FSP reports boot complete (scratch reads 0xff).
    pub fn wait_for_boot(&self) -> (r: Readout<Booted>)
        ensures
            r.starts(boot_code(self.chip), Booted),
            r.well_formed(),
    {
        proof {
            lemma_boot_code(self.chip, 0);
        }
        Readout::new(boot_program(self.chip), Booted)
    }

    /// The mode the GPU is currently running with.
    pub fn query_cc_mode(&self) -> (r: Readout<CcReading>)
        ensures
            r.script() == crate::cc::script::script_of(
                boot_code(self.chip) + seq![Instr::Read(cc_state_register(self.chip))],
            ),
            r.reading().bdf@ == self.pci.bdf@,
            r.well_formed(),
    {
        let register: u32 = if self.chip.hopper {
            CC_STATE_HOPPER
        } else {
            CC_STATE_BLACKWELL
        };
        let mut code: Vec<Instr> = boot_program(self.chip);
        code.push(Instr::Read(register));
        proof {
            lemma_boot_code(self.chip, register);
            assert(code@ =~= boot_code(self.chip) + seq![Instr::Read(register)]);
        }
        Readout::new(code, CcReading { bdf: self.pci.bdf.clone() })
    }

    /// Persist a new CC mode in the FSP.  It takes effect on the next GPU
    /// reset: call [`Gpu::reset`] afterwards.
    pub fn set_cc_mode(&self, mode: CcMode) -> (r: Result<SetMode, CcError>)
        ensures
            match r {
                Ok(set) => {
                    &&& !(self.c2c && mode != CcMode::Off)
                    &&& set@ == set_of(
                        self.pci.bdf@,
                        false,
                        channel(self.chip),
                        cc_ops(self.chip.hopper, mode),
                        boot_code(self.chip),
                    )
                    &&& set.well_formed()
                },
                Err(err) => {
                    &&& self.c2c && mode != CcMode::Off
                    &&& err@ == CcFault::Device(self.pci.bdf@, DeviceFault::C2c)
                },
            },
    {
        if self.c2c && mode != CcMode::Off {
            return Err(CcError::Device(self.pci.bdf.clone(), DeviceFault::C2c));
        }
        let rpc: FspRpc = if self.chip.hopper {
            FspRpc::Emem
        } else {
            FspRpc::Mnoc
        };
        let plan: Vec<KnobOp> = cc_plan(self.chip.hopper, mode);
        Ok(SetMode::new(&self.pci.bdf, false, rpc, plan, boot_program(self.chip)))
    }

    /// Hopper only, not Hopper-plus: Blackwell encrypts NVLink and reports
    /// no PPCIE support.
    pub fn supports_ppcie(&self) -> (r: bool)
        ensures
            r == self.chip.hopper,
    {
        self.chip.hopper
    }

    pub fn query_ppcie_mode(&self) -> (r: Result<Readout<PpcieReading>, CcError>)
        ensures
            match r {
                Ok(readout) => {
                    &&& self.chip.hopper
                    &&& readout.starts(
                        boot_code(self.chip) + seq![Instr::Read(PPCIE_STATE_HOPPER)],
                        PpcieReading { bit: PPCIE_STATE_HOPPER_BIT },
                    )
                    &&& readout.well_formed()
                },
                Err(err) => {
                    &&& !self.chip.hopper
                    &&& err@ == CcFault::Device(self.pci.bdf@, DeviceFault::NoPpcie(self.chip))
                },
            },
    {
        if !self.supports_ppcie() {
            return Err(CcError::Device(self.pci.bdf.clone(), DeviceFault::NoPpcie(self.chip)));
        }
        let mut code: Vec<Instr> = boot_program(self.chip);
        code.push(Instr::Read(PPCIE_STATE_HOPPER));
        proof {
            lemma_boot_code(self.chip, PPCIE_STATE_HOPPER);
            assert(code@ =~= boot_code(self.chip) + seq![Instr::Read(PPCIE_STATE_HOPPER)]);
        }
        Ok(Readout::new(code, PpcieReading { bit: PPCIE_STATE_HOPPER_BIT }))
    }

    /// Takes effect on reset, and only once every GPU and switch on the
    /// baseboard carries the same mode.
    pub fn set_ppcie_mode(&self, mode: PpcieMode) -> (r: Result<SetMode, CcError>)
        ensures
            match r {
                Ok(set) => {
                    &&& self.chip.hopper
                    &&& set@ == set_of(
                        self.pci.bdf@,
                        true,
                        FspRpc::Emem,
                        ppcie_ops(mode, true),
                        boot_code(self.chip),
                    )
                    &&& set.well_formed()
                },
                Err(err) => {
                    &&& !self.chip.hopper
                    &&& err@ == CcFault::Device(self.pci.bdf@, DeviceFault::NoPpcie(self.chip))
                },
            },
    {
        if !self.supports_ppcie() {
            return Err(CcError::Device(self.pci.bdf.clone(), DeviceFault::NoPpcie(self.chip)));
        }
        let plan: Vec<KnobOp> = ppcie_plan(mode, true);
        Ok(SetMode::new(&self.pci.bdf, true, FspRpc::Emem, plan, boot_program(self.chip)))
    }

    /// Function-level reset, then wait for the GPU to boot back up.
    /// This is what makes a previously set CC mode active.
    pub fn reset(&self) -> (r: ResetDevice)
        ensures
            resets(r, self.pci, boot_code(self.chip)),
            r.well_formed(),
    {
        proof {
            lemma_boot_code(self.chip, 0);
        }
        ResetDevice::new(&self.pci, boot_program(self.chip))
    }
}

/// Whether a device number is that of a Hopper.
pub open spec fn is_hopper_number(device: u16) -> bool {
    0x22f0 <= device <= 0x237f
}

/// Whether a device number is that of a Blackwell.
pub open spec fn is_blackwell_number(device: u16) -> bool {
    0x2900 <= device <= 0x29ff || 0x2b80 <= device <= 0x2c7f || 0x2d00 <= device <= 0x2dff || 0x2f00
        <= device <= 0x2f7f || 0x3180 <= device <= 0x327f
}

/// A GPU is known by NVIDIA's number and its own; what is driven how follows
/// from that alone: a Hopper has its CC state at 1182cc and its FSP behind the
/// EMEM channel, a Blackwell has it at 590 and its FSP behind the MNOC mailbox.
pub proof fn a_gpu_is_known_by_its_numbers(vendor: u16, device: u16)
    ensures
        GpuKind::identified(vendor, device) is Ok <==> vendor == 0x10de && (is_hopper_number(device)
            || is_blackwell_number(device)),
        vendor != 0x10de ==> GpuKind::identified(vendor, device) == Err::<GpuKind, DeviceFault>(
            DeviceFault::NotNvidia(vendor),
        ),
        vendor == 0x10de && !is_hopper_number(device) && !is_blackwell_number(device)
            ==> GpuKind::identified(vendor, device) == Err::<GpuKind, DeviceFault>(
            DeviceFault::NotCcCapable(device),
        ),
        GpuKind::identified(vendor, device) matches Ok(kind) ==> ({
            &&& kind.chip.hopper <==> is_hopper_number(device)
            &&& kind.c2c <==> device == 0x2342 || device == 0x2343 || device == 0x2345 || device
                == 0x2348 || device == 0x2941 || device == 0x297e || device == 0x29bc || device
                == 0x31c2
            &&& is_hopper_number(device) ==> cc_state_register(kind.chip) == 0x1182cc && channel(
                kind.chip,
            ) == FspRpc::Emem
            &&& is_blackwell_number(device) ==> cc_state_register(kind.chip) == 0x590 && channel(
                kind.chip,
            ) == FspRpc::Mnoc
            &&& kind.chip.boot_complete == (if 0x2b80 <= device <= 0x2fff {
                0xad00bcu32
            } else {
                0x200bcu32
            })
        }),
{
    a_part_is_known_by_its_number(device);
    coherent_parts_are_these(device);
}

/// A GPU is looked at through register 0, a Blackwell once its firewall is down;
/// one that cannot be reached reads all ones, two more words are security
/// faults, and any other word is that of a GPU.
pub proof fn a_gpu_answers_at_register_zero(kind: GpuKind, word: u32)
    ensures
        kind.code().last() == Instr::Read(0),
        kind.chip.hopper ==> kind.code().len() == 1,
        !kind.chip.hopper ==> kind.code().len() == 2 && kind.code()[0] is Await,
        kind.accepted(word) is Ok <==> word != 0xffff_ffff && word != 0xbadf_0200 && word
            != 0xbad0_0200,
        kind.accepted(word) matches Ok(model) ==> model == kind,
        word == 0xffff_ffff ==> kind.accepted(word) == Err::<GpuKind, DeviceFault>(
            DeviceFault::Bar0Inaccessible,
        ),
        word == 0xbadf_0200 || word == 0xbad0_0200 ==> kind.accepted(word) == Err::<
            GpuKind,
            DeviceFault,
        >(DeviceFault::SecurityFault(word)),
        GpuKind::wanted() == Wanted::Gpus,
{
}

/// An open GPU is its PCI function and what makes it one.
pub proof fn a_gpu_shows_its_parts(gpu: Gpu)
    ensures
        GpuKind::parts(gpu).0 == gpu.pci@,
        GpuKind::parts(gpu).1.chip == gpu.chip,
        GpuKind::parts(gpu).1.c2c == gpu.c2c,
{
}

} // verus!
