//! Live register access to a PCI function: BAR0 mapping, function-level
//! reset, and forcing the device out of runtime suspend so MMIO reads mean
//! something.
//!
//! All paths are kernel contracts (`/sys/bus/pci/devices/<bdf>/...`), not
//! configuration.

use vstd::prelude::*;

use crate::attr::{an_attribute_is_read, attr_hex, attr_hex_end, trim_attr};
use crate::bdf::{canonical, normalize_bdf};
use crate::kernel::{
    context, failed, poll, poll_step, timed_out, timed_out_message, told, told_length, told_text, told_unit,
    ErrorKind, IoError, Op, Pace, PollEvent, PollStep, Procedure, Reply, Request, Step, Told,
    POLL_PAUSE_MS,
};
use crate::number::hex;
use crate::path::{join, joined_path};
use crate::sysfs::{devices_dir, Sysfs, SYSFS};
use crate::text::{
    cat, debug_quoted, glue, is_trim, quote, same_text, trimmed, trimming_takes_off_what_is_around,
};

verus! {

/// The offset of the COMMAND register in config space.
pub const PCI_COMMAND: u64 = 0x04;

/// The COMMAND bit that lets a function answer memory cycles.
pub const PCI_COMMAND_MEMORY: u16 = 0x0002;

/// How long a device may take to wake up, in nanoseconds.
pub const WAKE_TIMEOUT: u64 = 5_000_000_000;

/// Why a register access is a caller bug.
#[derive(Clone, Copy, Debug, PartialEq, Eq, Structural)]
pub enum BadOffset {
    Misaligned,
    PastEnd,
}

/// What is wrong with reading or writing a dword register of a BAR0 of `len`
/// bytes: a misaligned `u32` access is undefined behaviour rather than a slow
/// one, and every register offset is a constant, so either is a caller bug.
pub open spec fn bad_offset(len: u64, offset: u32) -> Option<BadOffset> {
    if offset % 4 != 0 {
        Some(BadOffset::Misaligned)
    } else if offset + 4 > len {
        Some(BadOffset::PastEnd)
    } else {
        None
    }
}

/// Where a dword register lies in a BAR0 of `len` bytes.
pub fn dword_at(len: u64, offset: u32) -> (r: Result<u64, BadOffset>)
    ensures
        match r {
            Ok(at) => bad_offset(len, offset) is None && at == offset,
            Err(bad) => bad_offset(len, offset) == Some(bad),
        },
{
    if offset % 4 != 0 {
        return Err(BadOffset::Misaligned);
    }
    if len < 4 || offset as u64 > len - 4 {
        return Err(BadOffset::PastEnd);
    }
    Ok(offset as u64)
}

/// The COMMAND register that two bytes of config space hold.
pub open spec fn command_of(low: u8, high: u8) -> u16 {
    (high * 256 + low) as u16
}

/// The COMMAND register with memory decoding switched.
pub open spec fn decoding(command: u16, on: bool) -> u16 {
    if on {
        command | PCI_COMMAND_MEMORY
    } else {
        command & !PCI_COMMAND_MEMORY
    }
}

fn command(bytes: (u8, u8)) -> (r: u16)
    ensures
        r == command_of(bytes.0, bytes.1),
{
    bytes.1 as u16 * 256 + bytes.0 as u16
}

pub fn set_memory_decoding(command: u16, on: bool) -> (r: u16)
    ensures
        r == decoding(command, on),
{
    if on {
        command | PCI_COMMAND_MEMORY
    } else {
        command & !PCI_COMMAND_MEMORY
    }
}

/// Switching memory decoding leaves every other bit of COMMAND as it was,
/// and switching it back restores a COMMAND that had it off.
pub proof fn decoding_is_one_bit(command: u16, on: bool)
    ensures
        decoding(command, on) & !PCI_COMMAND_MEMORY == command & !PCI_COMMAND_MEMORY,
        decoding(command, on) & PCI_COMMAND_MEMORY != 0 <==> on,
        command & PCI_COMMAND_MEMORY == 0 ==> decoding(decoding(command, true), false) == command,
{
    assert((command | 0x0002) & !0x0002u16 == command & !0x0002u16) by (bit_vector);
    assert((command & !0x0002u16) & !0x0002u16 == command & !0x0002u16) by (bit_vector);
    assert((command | 0x0002) & 0x0002 != 0) by (bit_vector);
    assert((command & !0x0002u16) & 0x0002 == 0) by (bit_vector);
    assert(command & 0x0002 == 0 ==> (command | 0x0002) & !0x0002u16 == command) by (bit_vector);
}

// --- Devices -----------------------------------------------------------------

/// One PCI function with its BAR0 mapped for register access.
#[derive(Debug)]
pub struct PciDev {
    pub bdf: String,
    pub vendor: u16,
    pub device: u16,
    /// The device's directory.
    pub path: String,
    /// The length of its BAR0.
    pub bar0_len: u64,
    /// Previous `power/control` policy, restored on close.
    pub power_control: Option<String>,
    /// Whether opening it switched memory decoding on.
    pub decoding_enabled: bool,
}

pub struct DevState {
    pub bdf: Seq<char>,
    pub vendor: u16,
    pub device: u16,
    pub path: Seq<char>,
    pub bar0_len: u64,
    pub power_control: Option<Seq<char>>,
    pub decoding_enabled: bool,
}

pub open spec fn some_text(s: Option<String>) -> Option<Seq<char>> {
    match s {
        Some(s) => Some(s@),
        None => None,
    }
}

impl View for PciDev {
    type V = DevState;

    open spec fn view(&self) -> DevState {
        DevState {
            bdf: self.bdf@,
            vendor: self.vendor,
            device: self.device,
            path: self.path@,
            bar0_len: self.bar0_len,
            power_control: some_text(self.power_control),
            decoding_enabled: self.decoding_enabled,
        }
    }
}

/// Where a device keeps its runtime-PM policy.
pub open spec fn control_path(path: Seq<char>) -> Seq<char> {
    joined_path(path, "power/control"@)
}

pub open spec fn status_path(path: Seq<char>) -> Seq<char> {
    joined_path(path, "power/runtime_status"@)
}

pub open spec fn config_path(path: Seq<char>) -> Seq<char> {
    joined_path(path, "config"@)
}

/// Whether a runtime status means that the device is awake; "unsupported" is
/// runtime PM disabled: in D0, and never "active".
pub open spec fn is_awake(content: Result<Seq<char>, Told>) -> bool {
    match content {
        Ok(content) => trimmed(content) == "active"@ || trimmed(content) == "unsupported"@,
        Err(_) => false,
    }
}

fn awake(content: &Result<String, IoError>) -> (r: bool)
    ensures
        r == is_awake(told_text(*content)),
{
    match content {
        Ok(content) => {
            let status: String = trim_attr(content);
            same_text(&status, "active") || same_text(&status, "unsupported")
        },
        Err(_) => false,
    }
}

/// How far the opening of a device has come.
#[derive(Clone, Copy, Debug, PartialEq, Eq, Structural)]
pub enum OpenPhase {
    /// Looking for its directory.
    Finding,
    /// Reading its vendor.
    Vendor,
    /// Reading its device id.
    Device,
    /// Mapping its BAR0.
    Mapping,
    /// Reading its runtime-PM policy.
    Policy,
    /// Forcing it to D0.
    Waking,
    /// Waiting until it is there.
    Awaiting(Pace),
    /// Reading its COMMAND register.
    Command,
    /// Reading it again, to change it.
    CommandAgain,
    /// Writing it back with memory decoding on.
    Enabling(u16),
    /// Putting its runtime-PM policy back, the opening having failed.
    Restoring,
}

/// The opening of a device.
#[derive(Debug)]
pub struct OpenDev {
    devices: String,
    dev: PciDev,
    phase: OpenPhase,
    error: Option<IoError>,
}

pub struct OpenState {
    /// The directory it is looked for in.
    pub devices: Seq<char>,
    /// What is known of it so far.
    pub dev: DevState,
    pub phase: OpenPhase,
    /// Why the opening failed, once it has.
    pub error: Option<Told>,
}

pub type OpenEnd = Result<DevState, Told>;

impl View for OpenDev {
    type V = OpenState;

    closed spec fn view(&self) -> OpenState {
        OpenState {
            devices: self.devices@,
            dev: self.dev@,
            phase: self.phase,
            error: match self.error {
                Some(err) => Some(told(err)),
                None => None,
            },
        }
    }
}

/// The opening of the device at `bdf` about to start.
pub open spec fn opening(devices: Seq<char>, bdf: Seq<char>) -> OpenState {
    OpenState {
        devices,
        dev: DevState {
            bdf,
            vendor: 0,
            device: 0,
            path: joined_path(devices, bdf),
            bar0_len: 0,
            power_control: None,
            decoding_enabled: false,
        },
        phase: OpenPhase::Finding,
        error: None,
    }
}

/// What reading two bytes says.
pub open spec fn told_bytes(r: Result<(u8, u8), IoError>) -> Result<(u8, u8), Told> {
    match r {
        Ok(bytes) => Ok(bytes),
        Err(err) => Err(told(err)),
    }
}

impl OpenState {
    pub open spec fn well_formed(self) -> bool {
        self.phase == OpenPhase::Restoring ==> self.error is Some && self.dev.power_control is Some
    }

    pub open spec fn request(self) -> Request {
        let path = self.dev.path;
        match self.phase {
            OpenPhase::Finding => Request::Exists(path),
            OpenPhase::Vendor => Request::ReadText(joined_path(path, "vendor"@)),
            OpenPhase::Device => Request::ReadText(joined_path(path, "device"@)),
            OpenPhase::Mapping => Request::MapFile(joined_path(path, "resource0"@)),
            OpenPhase::Policy => Request::ReadText(control_path(path)),
            OpenPhase::Waking => Request::WriteText(control_path(path), "on"@),
            OpenPhase::Awaiting(Pace::Starting) => Request::StartTimer,
            OpenPhase::Awaiting(Pace::Looking) => Request::ReadText(status_path(path)),
            OpenPhase::Awaiting(Pace::Timing) => Request::Elapsed,
            OpenPhase::Awaiting(Pace::Sleeping) => Request::Sleep(POLL_PAUSE_MS),
            OpenPhase::Command | OpenPhase::CommandAgain => Request::ReadBytes(
                config_path(path),
                PCI_COMMAND,
            ),
            OpenPhase::Enabling(command) => Request::WriteBytes(
                config_path(path),
                PCI_COMMAND,
                (command % 256) as u8,
                (command / 256) as u8,
            ),
            OpenPhase::Restoring => Request::WriteText(
                control_path(path),
                self.dev.power_control->0,
            ),
        }
    }

    pub open spec fn to(self, phase: OpenPhase) -> Step<OpenState, OpenEnd> {
        Step::Next(OpenState { phase, ..self })
    }

    /// A failure once the device may have been woken: what was its policy is
    /// put back first.
    pub open spec fn fail(self, error: Told) -> Step<OpenState, OpenEnd> {
        if self.dev.power_control is Some {
            Step::Next(OpenState { phase: OpenPhase::Restoring, error: Some(error), ..self })
        } else {
            Step::Done(Err(error))
        }
    }

    pub open spec fn waited(self, event: PollEvent) -> Step<OpenState, OpenEnd> {
        match poll_step(event, WAKE_TIMEOUT) {
            PollStep::Look => self.to(OpenPhase::Awaiting(Pace::Looking)),
            PollStep::AskTime => self.to(OpenPhase::Awaiting(Pace::Timing)),
            PollStep::Sleep => self.to(OpenPhase::Awaiting(Pace::Sleeping)),
            PollStep::Ready => self.to(OpenPhase::Command),
            PollStep::TimedOut => self.fail(
                (ErrorKind::TimedOut, timed_out_message("device wakeup from D3"@)),
            ),
        }
    }

    pub open spec fn after(self, reply: Reply) -> Step<OpenState, OpenEnd> {
        let dev = self.dev;
        match self.phase {
            OpenPhase::Finding => if reply->Flag_0 {
                self.to(OpenPhase::Vendor)
            } else {
                Step::Done(
                    Err(
                        (
                            ErrorKind::NotFound,
                            "no PCI device "@ + dev.bdf + " under "@ + self.devices,
                        ),
                    ),
                )
            },
            OpenPhase::Vendor => match attr_hex_end(
                dev.path,
                "vendor"@,
                told_text(reply->Text_0),
            ) {
                Ok(vendor) => Step::Next(
                    OpenState {
                        dev: DevState { vendor: vendor as u16, ..dev },
                        phase: OpenPhase::Device,
                        ..self
                    },
                ),
                Err(err) => Step::Done(Err(err)),
            },
            OpenPhase::Device => match attr_hex_end(
                dev.path,
                "device"@,
                told_text(reply->Text_0),
            ) {
                Ok(device) => Step::Next(
                    OpenState {
                        dev: DevState { device: device as u16, ..dev },
                        phase: OpenPhase::Mapping,
                        ..self
                    },
                ),
                Err(err) => Step::Done(Err(err)),
            },
            OpenPhase::Mapping => match told_length(reply->Length_0) {
                Ok(bar0_len) => Step::Next(
                    OpenState {
                        dev: DevState { bar0_len, ..dev },
                        phase: OpenPhase::Policy,
                        ..self
                    },
                ),
                Err(err) => Step::Done(Err(err)),
            },
            // No power/control at all is a device the kernel never suspends:
            // it is already in D0, and there is no policy to put back.
            OpenPhase::Policy => match told_text(reply->Text_0) {
                Ok(policy) => Step::Next(
                    OpenState {
                        dev: DevState { power_control: Some(trimmed(policy)), ..dev },
                        phase: OpenPhase::Waking,
                        ..self
                    },
                ),
                Err(_) => self.to(OpenPhase::Command),
            },
            OpenPhase::Waking => match told_unit(reply->Unit_0) {
                Ok(()) => self.to(OpenPhase::Awaiting(Pace::Starting)),
                Err((kind, message)) => Step::Done(
                    Err(
                        (
                            kind,
                            "set "@ + control_path(dev.path) + " to on (needs root)"@ + ": "@
                                + message,
                        ),
                    ),
                ),
            },
            OpenPhase::Awaiting(Pace::Starting) => self.waited(PollEvent::Started),
            OpenPhase::Awaiting(Pace::Looking) => self.waited(
                PollEvent::Looked(is_awake(told_text(reply->Text_0))),
            ),
            OpenPhase::Awaiting(Pace::Timing) => self.waited(PollEvent::Elapsed(reply->Nanos_0)),
            OpenPhase::Awaiting(Pace::Sleeping) => self.waited(PollEvent::Slept),
            // An unbound device answers no memory cycles, yet its BAR0 still
            // maps, so every register would read all-ones.
            OpenPhase::Command => match told_bytes(reply->Bytes_0) {
                Ok((low, high)) => if command_of(low, high) & PCI_COMMAND_MEMORY != 0 {
                    Step::Done(Ok(dev))
                } else {
                    self.to(OpenPhase::CommandAgain)
                },
                Err(err) => self.fail(command_error(dev.path, err)),
            },
            OpenPhase::CommandAgain => match told_bytes(reply->Bytes_0) {
                Ok((low, high)) => self.to(
                    OpenPhase::Enabling(decoding(command_of(low, high), true)),
                ),
                Err(err) => self.fail(command_error(dev.path, err)),
            },
            OpenPhase::Enabling(_) => match told_unit(reply->Unit_0) {
                Ok(()) => Step::Done(Ok(DevState { decoding_enabled: true, ..dev })),
                Err((kind, message)) => self.fail(
                    (
                        kind,
                        "set memory decoding on "@ + config_path(dev.path) + " (needs root)"@ + ": "@
                            + message,
                    ),
                ),
            },
            OpenPhase::Restoring => Step::Done(Err(self.error->0)),
        }
    }
}

/// A failure to read the COMMAND register.
pub open spec fn command_error(path: Seq<char>, err: Told) -> Told {
    (err.0, "read COMMAND from "@ + config_path(path) + " (needs root)"@ + ": "@ + err.1)
}

pub open spec fn open_step(step: Step<OpenDev, Result<PciDev, IoError>>) -> Step<
    OpenState,
    OpenEnd,
> {
    match step {
        Step::Next(open) => Step::Next(open@),
        Step::Done(Ok(dev)) => Step::Done(Ok(dev@)),
        Step::Done(Err(err)) => Step::Done(Err(told(err))),
    }
}

/// A refused address.
pub open spec fn not_an_address(address: Seq<char>) -> Told {
    (ErrorKind::InvalidInput, debug_quoted(address) + " is not a PCI address"@)
}

pub fn refuse_address(address: &str) -> (r: IoError)
    ensures
        told(r) == not_an_address(address@),
{
    failed(ErrorKind::InvalidInput, cat(&quote(address), " is not a PCI address"))
}

impl PciDev {
    /// Map a device's BAR0 (`resource0`) on the running kernel.  The domain
    /// may be omitted (`65:00.0` means `0000:65:00.0`).  Needs root.
    pub fn open(bdf: &str) -> (r: Result<OpenDev, IoError>)
        ensures
            match r {
                Ok(open) => {
                    &&& canonical(bdf@) is Some
                    &&& open@ == opening(devices_dir(SYSFS@), canonical(bdf@)->0)
                    &&& open.well_formed()
                },
                Err(err) => canonical(bdf@) is None && told(err) == not_an_address(bdf@),
            },
    {
        PciDev::open_in(&Sysfs::default(), bdf)
    }

    /// Open under a given sysfs, so a caller that enumerated under a test
    /// tree does not silently reach into `/sys` here.
    pub fn open_in(sysfs: &Sysfs, bdf: &str) -> (r: Result<OpenDev, IoError>)
        ensures
            match r {
                Ok(open) => {
                    &&& canonical(bdf@) is Some
                    &&& open@ == opening(devices_dir(sysfs.root()), canonical(bdf@)->0)
                    &&& open.well_formed()
                },
                Err(err) => canonical(bdf@) is None && told(err) == not_an_address(bdf@),
            },
    {
        match normalize_bdf(bdf) {
            None => Err(refuse_address(bdf)),
            Some(bdf) => {
                let devices: String = sysfs.devices();
                let path: String = join(&devices, &bdf);
                Ok(
                    OpenDev {
                        devices,
                        dev: PciDev {
                            bdf,
                            vendor: 0,
                            device: 0,
                            path,
                            bar0_len: 0,
                            power_control: None,
                            decoding_enabled: false,
                        },
                        phase: OpenPhase::Finding,
                        error: None,
                    },
                )
            },
        }
    }
}

impl PciDev {
    /// Whether a dword register lies in the device's BAR0.
    pub open spec fn covers(&self, offset: u32) -> bool {
        bad_offset(self.bar0_len, offset) is None
    }

    pub fn read32(&self, offset: u32) -> (op: Op)
        requires
            self.covers(offset),
        ensures
            op@ == Request::Read32(offset),
    {
        Op::Read32(offset)
    }

    pub fn write32(&self, offset: u32, value: u32) -> (op: Op)
        requires
            self.covers(offset),
        ensures
            op@ == Request::Write32(offset, value),
    {
        Op::Write32(offset, value)
    }

    /// Function-level reset via sysfs.  The kernel saves and restores config
    /// space around it, so the mapping stays valid.
    pub fn sysfs_reset(&self) -> (r: SysfsReset)
        ensures
            r@ == (ResetRequest { bdf: self.bdf@, path: joined_path(self.path@, "reset"@) }),
            r.well_formed(),
    {
        SysfsReset { bdf: self.bdf.clone(), path: join(&self.path, "reset") }
    }

    /// Put the device back the way it was found.
    pub fn close(self) -> (step: Step<CloseDev, ()>)
        ensures
            close_step(step) == closing(self@),
            step matches Step::Next(close) ==> close.well_formed(),
    {
        if self.decoding_enabled {
            Step::Next(CloseDev { dev: self, phase: ClosePhase::Command })
        } else {
            CloseDev { dev: self, phase: ClosePhase::Restoring }.restore()
        }
    }
}

impl OpenDev {
    fn fail(self, error: IoError) -> (step: Step<OpenDev, Result<PciDev, IoError>>)
        ensures
            open_step(step) == self@.fail(told(error)),
            step matches Step::Next(next) ==> next@.well_formed(),
    {
        if self.dev.power_control.is_some() {
            Step::Next(OpenDev { phase: OpenPhase::Restoring, error: Some(error), ..self })
        } else {
            Step::Done(Err(error))
        }
    }

    fn to(self, phase: OpenPhase) -> (step: Step<OpenDev, Result<PciDev, IoError>>)
        requires
            phase != OpenPhase::Restoring,
        ensures
            open_step(step) == self@.to(phase),
            step matches Step::Next(next) ==> next@.well_formed(),
    {
        Step::Next(OpenDev { phase, ..self })
    }

    fn waited(self, event: PollEvent) -> (step: Step<OpenDev, Result<PciDev, IoError>>)
        ensures
            open_step(step) == self@.waited(event),
            step matches Step::Next(next) ==> next@.well_formed(),
    {
        match poll(event, WAKE_TIMEOUT) {
            PollStep::Look => self.to(OpenPhase::Awaiting(Pace::Looking)),
            PollStep::AskTime => self.to(OpenPhase::Awaiting(Pace::Timing)),
            PollStep::Sleep => self.to(OpenPhase::Awaiting(Pace::Sleeping)),
            PollStep::Ready => self.to(OpenPhase::Command),
            PollStep::TimedOut => self.fail(timed_out("device wakeup from D3")),
        }
    }

    fn command_failed(self, err: IoError) -> (step: Step<OpenDev, Result<PciDev, IoError>>)
        ensures
            open_step(step) == self@.fail(command_error(self@.dev.path, told(err))),
            step matches Step::Next(next) ==> next@.well_formed(),
    {
        let what: String = glue(
            "read COMMAND from ",
            &join(&self.dev.path, "config"),
            " (needs root)",
        );
        self.fail(context(err, &what))
    }
}

impl Procedure for OpenDev {
    type Output = Result<PciDev, IoError>;

    open spec fn well_formed(&self) -> bool {
        self@.well_formed()
    }

    open spec fn request(&self) -> Request {
        self@.request()
    }

    fn op(&self) -> (op: Op) {
        let ghost _now = (self.well_formed(), self.request());
        let path: &str = self.dev.path.as_str();
        match self.phase {
            OpenPhase::Finding => Op::Exists(self.dev.path.clone()),
            OpenPhase::Vendor => Op::ReadText(join(path, "vendor")),
            OpenPhase::Device => Op::ReadText(join(path, "device")),
            OpenPhase::Mapping => Op::MapFile(join(path, "resource0")),
            OpenPhase::Policy => Op::ReadText(join(path, "power/control")),
            OpenPhase::Waking => Op::WriteText(
                join(path, "power/control"),
                "on".to_string(),
            ),
            OpenPhase::Awaiting(Pace::Starting) => Op::StartTimer,
            OpenPhase::Awaiting(Pace::Looking) => Op::ReadText(join(path, "power/runtime_status")),
            OpenPhase::Awaiting(Pace::Timing) => Op::Elapsed,
            OpenPhase::Awaiting(Pace::Sleeping) => Op::Sleep(POLL_PAUSE_MS),
            OpenPhase::Command => Op::ReadBytes(join(path, "config"), PCI_COMMAND),
            OpenPhase::CommandAgain => Op::ReadBytes(join(path, "config"), PCI_COMMAND),
            OpenPhase::Enabling(command) => Op::WriteBytes(
                join(path, "config"),
                PCI_COMMAND,
                (command % 256) as u8,
                (command / 256) as u8,
            ),
            OpenPhase::Restoring => match &self.dev.power_control {
                Some(policy) => Op::WriteText(join(path, "power/control"), policy.clone()),
                None => Op::StartTimer,
            },
        }
    }

    fn resume(self, reply: Reply) -> (step: Step<Self, Self::Output>)
        ensures
            open_step(step) == self@.after(reply),
    {
        let ghost _now = (self.well_formed(), self.request());
        match (self.phase, reply) {
            (OpenPhase::Finding, Reply::Flag(found)) => if found {
                self.to(OpenPhase::Vendor)
            } else {
                let mut message: String = glue("no PCI device ", &self.dev.bdf, " under ");
                message.append(&self.devices);
                Step::Done(Err(failed(ErrorKind::NotFound, message)))
            },
            (OpenPhase::Vendor, Reply::Text(content)) => match attr_hex(
                &self.dev.path,
                "vendor",
                content,
            ) {
                Ok(vendor) => {
                    let mut open: OpenDev = self;
                    open.dev.vendor = #[verifier::truncate] (vendor as u16);
                    open.to(OpenPhase::Device)
                },
                Err(err) => Step::Done(Err(err)),
            },
            (OpenPhase::Device, Reply::Text(content)) => match attr_hex(
                &self.dev.path,
                "device",
                content,
            ) {
                Ok(device) => {
                    let mut open: OpenDev = self;
                    open.dev.device = #[verifier::truncate] (device as u16);
                    open.to(OpenPhase::Mapping)
                },
                Err(err) => Step::Done(Err(err)),
            },
            (OpenPhase::Mapping, Reply::Length(length)) => match length {
                Ok(length) => {
                    let mut open: OpenDev = self;
                    open.dev.bar0_len = length;
                    open.to(OpenPhase::Policy)
                },
                Err(err) => Step::Done(Err(err)),
            },
            (OpenPhase::Policy, Reply::Text(content)) => match content {
                Ok(policy) => {
                    let mut open: OpenDev = self;
                    open.dev.power_control = Some(trim_attr(&policy));
                    open.to(OpenPhase::Waking)
                },
                Err(_) => self.to(OpenPhase::Command),
            },
            (OpenPhase::Waking, Reply::Unit(done)) => match done {
                Ok(()) => self.to(OpenPhase::Awaiting(Pace::Starting)),
                Err(err) => {
                    let what: String = glue(
                        "set ",
                        &join(&self.dev.path, "power/control"),
                        " to on (needs root)",
                    );
                    Step::Done(Err(context(err, &what)))
                },
            },
            (OpenPhase::Awaiting(Pace::Looking), Reply::Text(content)) => self.waited(
                PollEvent::Looked(awake(&content)),
            ),
            (OpenPhase::Awaiting(Pace::Timing), Reply::Nanos(nanos)) => self.waited(
                PollEvent::Elapsed(nanos),
            ),
            (OpenPhase::Awaiting(Pace::Starting), _) => self.waited(PollEvent::Started),
            (OpenPhase::Awaiting(Pace::Sleeping), _) => self.waited(PollEvent::Slept),
            (OpenPhase::Command, Reply::Bytes(bytes)) => match bytes {
                Ok(bytes) => if command(bytes) & PCI_COMMAND_MEMORY != 0 {
                    Step::Done(Ok(self.dev))
                } else {
                    self.to(OpenPhase::CommandAgain)
                },
                Err(err) => self.command_failed(err),
            },
            (OpenPhase::CommandAgain, Reply::Bytes(bytes)) => match bytes {
                Ok(bytes) => self.to(
                    OpenPhase::Enabling(set_memory_decoding(command(bytes), true)),
                ),
                Err(err) => self.command_failed(err),
            },
            (OpenPhase::Enabling(_), Reply::Unit(done)) => match done {
                Ok(()) => {
                    let mut dev: PciDev = self.dev;
                    dev.decoding_enabled = true;
                    Step::Done(Ok(dev))
                },
                Err(err) => {
                    let what: String = glue(
                        "set memory decoding on ",
                        &join(&self.dev.path, "config"),
                        " (needs root)",
                    );
                    self.fail(context(err, &what))
                },
            },
            (_, _) => match self.error {
                Some(err) => Step::Done(Err(err)),
                None => Step::Done(Ok(self.dev)),
            },
        }
    }
}

impl OpenState {
    /// Whether the device has been forced to D0 and its policy is known.
    pub open spec fn forced(self) -> bool {
        self.dev.power_control is Some && (self.phase is Awaiting || self.phase is Command
            || self.phase is CommandAgain || self.phase is Enabling || self.phase is Restoring)
    }
}

/// An opening that has forced its device to D0 keeps the policy it found: it
/// hands it over with the device, or fails right after writing it back.
pub proof fn failed_open_restores_the_power_policy(open: OpenState, reply: Reply)
    requires
        open.forced(),
    ensures
        match open.after(reply) {
            Step::Next(next) => {
                &&& next.forced()
                &&& next.dev.power_control == open.dev.power_control
                &&& next.dev.path == open.dev.path
            },
            Step::Done(Ok(dev)) => {
                &&& dev.power_control == open.dev.power_control
                &&& dev.path == open.dev.path
            },
            Step::Done(Err(_)) => open.request() == Request::WriteText(
                control_path(open.dev.path),
                open.dev.power_control->0,
            ),
        },
{
}

/// An opening writes the policy file for the first time to force the device to
/// D0, and only once it has read the policy it will write back.
pub proof fn forcing_to_d0_keeps_the_policy_found(open: OpenState, reply: Reply)
    requires
        open.phase == OpenPhase::Policy,
        reply.answers(open.request()),
    ensures
        match told_text(reply->Text_0) {
            Ok(policy) => open.after(reply) matches Step::Next(next) && next.request()
                == Request::WriteText(control_path(open.dev.path), "on"@)
                && next.dev.power_control == Some(trimmed(policy)),
            Err(_) => open.after(reply) matches Step::Next(next) && next.dev.power_control
                == open.dev.power_control && !(next.phase is Waking),
        },
{
}

// --- Resetting ---------------------------------------------------------------

/// A function-level reset about to be asked for.
#[derive(Debug)]
pub struct SysfsReset {
    bdf: String,
    path: String,
}

pub struct ResetRequest {
    pub bdf: Seq<char>,
    /// The file that takes it.
    pub path: Seq<char>,
}

impl View for SysfsReset {
    type V = ResetRequest;

    closed spec fn view(&self) -> ResetRequest {
        ResetRequest { bdf: self.bdf@, path: self.path@ }
    }
}

impl ResetRequest {
    /// What the reset comes to.
    pub open spec fn end(self, reply: Reply) -> Result<(), Told> {
        match told_unit(reply->Unit_0) {
            Ok(()) => Ok(()),
            Err((kind, message)) => Err(
                (kind, self.bdf + ": reset via sysfs"@ + ": "@ + message),
            ),
        }
    }
}

impl Procedure for SysfsReset {
    type Output = Result<(), IoError>;

    open spec fn well_formed(&self) -> bool {
        true
    }

    open spec fn request(&self) -> Request {
        Request::WriteText(self@.path, "1"@)
    }

    fn op(&self) -> (op: Op) {
        let ghost _now = (self.well_formed(), self.request());
        Op::WriteText(self.path.clone(), "1".to_string())
    }

    fn resume(self, reply: Reply) -> (step: Step<Self, Self::Output>)
        ensures
            step matches Step::Done(r) && told_unit(r) == self@.end(reply),
    {
        let ghost _now = (self.well_formed(), self.request());
        match reply {
            Reply::Unit(Err(err)) => {
                let what: String = cat(&self.bdf, ": reset via sysfs");
                Step::Done(Err(context(err, &what)))
            },
            _ => Step::Done(Ok(())),
        }
    }
}

// --- Closing -----------------------------------------------------------------

/// How far the closing of a device has come.
#[derive(Clone, Copy, Debug, PartialEq, Eq, Structural)]
pub enum ClosePhase {
    /// Reading its COMMAND register.
    Command,
    /// Writing it back with memory decoding off.
    Disabling(u16),
    /// Putting its runtime-PM policy back.
    Restoring,
}

/// The closing of a device: whatever fails, the rest is still done.
#[derive(Debug)]
pub struct CloseDev {
    dev: PciDev,
    phase: ClosePhase,
}

pub struct CloseState {
    pub dev: DevState,
    pub phase: ClosePhase,
}

impl View for CloseDev {
    type V = CloseState;

    closed spec fn view(&self) -> CloseState {
        CloseState { dev: self.dev@, phase: self.phase }
    }
}

/// What there is to do about an open device that is no longer needed.
pub open spec fn closing(dev: DevState) -> Step<CloseState, ()> {
    if dev.decoding_enabled {
        Step::Next(CloseState { dev, phase: ClosePhase::Command })
    } else {
        restoring(dev)
    }
}

pub open spec fn restoring(dev: DevState) -> Step<CloseState, ()> {
    if dev.power_control is Some {
        Step::Next(CloseState { dev, phase: ClosePhase::Restoring })
    } else {
        Step::Done(())
    }
}

impl CloseState {
    pub open spec fn well_formed(self) -> bool {
        self.phase == ClosePhase::Restoring ==> self.dev.power_control is Some
    }

    pub open spec fn request(self) -> Request {
        let config = config_path(self.dev.path);
        match self.phase {
            ClosePhase::Command => Request::ReadBytes(config, PCI_COMMAND),
            ClosePhase::Disabling(command) => Request::WriteBytes(
                config,
                PCI_COMMAND,
                (command % 256) as u8,
                (command / 256) as u8,
            ),
            ClosePhase::Restoring => Request::WriteText(
                control_path(self.dev.path),
                self.dev.power_control->0,
            ),
        }
    }

    pub open spec fn after(self, reply: Reply) -> Step<CloseState, ()> {
        match self.phase {
            ClosePhase::Command => match told_bytes(reply->Bytes_0) {
                Ok((low, high)) => Step::Next(
                    CloseState {
                        phase: ClosePhase::Disabling(decoding(command_of(low, high), false)),
                        ..self
                    },
                ),
                Err(_) => restoring(self.dev),
            },
            ClosePhase::Disabling(_) => restoring(self.dev),
            ClosePhase::Restoring => Step::Done(()),
        }
    }
}

pub open spec fn close_step(step: Step<CloseDev, ()>) -> Step<CloseState, ()> {
    match step {
        Step::Next(close) => Step::Next(close@),
        Step::Done(()) => Step::Done(()),
    }
}

impl CloseDev {
    fn restore(self) -> (step: Step<CloseDev, ()>)
        ensures
            close_step(step) == restoring(self@.dev),
            step matches Step::Next(close) ==> close@.well_formed(),
    {
        if self.dev.power_control.is_some() {
            Step::Next(CloseDev { phase: ClosePhase::Restoring, ..self })
        } else {
            Step::Done(())
        }
    }
}

/// Closing a device that was forced to D0 ends right after its policy has been
/// written back, whatever became of the rest.
pub proof fn closing_restores_the_power_policy(close: CloseState, reply: Reply)
    requires
        close.dev.power_control is Some,
    ensures
        closing(close.dev) is Next,
        match close.after(reply) {
            Step::Next(next) => next.dev == close.dev,
            Step::Done(()) => close.request() == Request::WriteText(
                control_path(close.dev.path),
                close.dev.power_control->0,
            ),
        },
{
}

/// What an opening writes to switch memory decoding on, closing takes back:
/// a COMMAND register that did not decode memory is left as it was found.
pub proof fn closing_undoes_memory_decoding(open: OpenState, found: (u8, u8), close: CloseState)
    requires
        command_of(found.0, found.1) & PCI_COMMAND_MEMORY == 0,
        close.dev.path == open.dev.path,
        close.phase == ClosePhase::Command,
    ensures
        ({
            let on = decoding(command_of(found.0, found.1), true);
            let set = OpenState { phase: OpenPhase::Enabling(on), ..open };
            &&& set.request() == Request::WriteBytes(
                config_path(open.dev.path),
                PCI_COMMAND,
                (on % 256) as u8,
                (on / 256) as u8,
            )
            &&& close.after(Reply::Bytes(Ok(((on % 256) as u8, (on / 256) as u8)))) matches Step::Next(
                next,
            ) && next.request() == Request::WriteBytes(
                config_path(open.dev.path),
                PCI_COMMAND,
                found.0,
                found.1,
            )
        }),
{
    let command = command_of(found.0, found.1);
    let on = decoding(command, true);
    decoding_is_one_bit(command, true);
    assert(command_of((on % 256) as u8, (on / 256) as u8) == on);
    assert(found.1 * 256 + found.0 <= 0xffff);
}

impl Procedure for CloseDev {
    type Output = ();

    open spec fn well_formed(&self) -> bool {
        self@.well_formed()
    }

    open spec fn request(&self) -> Request {
        self@.request()
    }

    fn op(&self) -> (op: Op) {
        let ghost _now = (self.well_formed(), self.request());
        let path: &str = self.dev.path.as_str();
        match self.phase {
            ClosePhase::Command => Op::ReadBytes(join(path, "config"), PCI_COMMAND),
            ClosePhase::Disabling(command) => Op::WriteBytes(
                join(path, "config"),
                PCI_COMMAND,
                (command % 256) as u8,
                (command / 256) as u8,
            ),
            ClosePhase::Restoring => match &self.dev.power_control {
                Some(policy) => Op::WriteText(join(path, "power/control"), policy.clone()),
                None => Op::StartTimer,
            },
        }
    }

    fn resume(self, reply: Reply) -> (step: Step<Self, Self::Output>)
        ensures
            close_step(step) == self@.after(reply),
    {
        let ghost _now = (self.well_formed(), self.request());
        match (self.phase, reply) {
            (ClosePhase::Command, Reply::Bytes(Ok(bytes))) => Step::Next(
                CloseDev {
                    phase: ClosePhase::Disabling(set_memory_decoding(command(bytes), false)),
                    ..self
                },
            ),
            (ClosePhase::Command, _) => self.restore(),
            (ClosePhase::Disabling(_), _) => self.restore(),
            (ClosePhase::Restoring, _) => Step::Done(()),
        }
    }
}

// --- What opening and closing do ---------------------------------------------

/// A register is one of 32 bits at a multiple of four that ends within the
/// mapping.
pub proof fn a_register_is_within_its_mapping(len: u64, offset: u32)
    ensures
        bad_offset(len, offset) is None <==> offset % 4 == 0 && offset + 4 <= len,
        bad_offset(len, offset) == Some(BadOffset::Misaligned) <==> offset % 4 != 0,
{
}

/// Of a COMMAND register the low byte comes first, and its second bit says
/// whether the function answers memory cycles; switching that on or off changes
/// no other bit.
pub proof fn the_second_bit_answers_memory_cycles(low: u8, high: u8)
    ensures
        command_of(low, high) == high * 256 + low,
        command_of(low, high) & PCI_COMMAND_MEMORY != 0 <==> low & 2 != 0,
        decoding(command_of(low, high), true) == command_of(low | 2, high),
        decoding(command_of(low, high), false) == command_of(low & 0xfd, high),
{
    let c = command_of(low, high);
    assert(high * 256 + low <= 0xffff);
    assert(c & 2 != 0 <==> low & 2 != 0) by (bit_vector)
        requires
            c == high * 256 + low,
    ;
    let on = low | 2;
    let off = low & 0xfd;
    assert(c | 2 == high * 256 + on) by (bit_vector)
        requires
            c == high * 256 + low,
            on == low | 2,
    ;
    assert(c & !2u16 == high * 256 + off) by (bit_vector)
        requires
            c == high * 256 + low,
            off == low & 0xfd,
    ;
}

/// An opening ends at the COMMAND register exactly where its memory bit is set,
/// whatever its other bits are, and then nothing has been written to it; where
/// the bit is not set the register is read again, written with the bit set and
/// nothing else changed, and only then is the device open.
pub proof fn memory_decoding_is_switched_on_once(
    open: OpenState,
    low: u8,
    high: u8,
    fault: IoError,
)
    requires
        open.phase == OpenPhase::Command,
    ensures
        open.request() == Request::ReadBytes(config_path(open.dev.path), 4),
        open.after(Reply::Bytes(Ok((low, high)))) == Step::<OpenState, OpenEnd>::Done(Ok(open.dev))
            <==> low & 2 != 0,
        low & 2 == 0 ==> ({
            let again = OpenState { phase: OpenPhase::CommandAgain, ..open };
            let command = decoding(command_of(low, high), true);
            let enabling = OpenState { phase: OpenPhase::Enabling(command), ..open };
            &&& open.after(Reply::Bytes(Ok((low, high)))) == Step::<OpenState, OpenEnd>::Next(again)
            &&& again.request() == open.request()
            &&& again.after(Reply::Bytes(Ok((low, high)))) == Step::<OpenState, OpenEnd>::Next(
                enabling,
            )
            &&& enabling.request() == Request::WriteBytes(
                config_path(open.dev.path),
                4,
                low | 2,
                high,
            )
            &&& enabling.after(Reply::Unit(Ok(()))) == Step::<OpenState, OpenEnd>::Done(
                Ok(DevState { decoding_enabled: true, ..open.dev }),
            )
        }),
        open.after(Reply::Bytes(Err(fault))) !is Done || open.after(
            Reply::Bytes(Err(fault)),
        )->Done_0 is Err,
{
    the_second_bit_answers_memory_cycles(low, high);
    the_second_bit_answers_memory_cycles(low | 2, high);
    let on = low | 2;
    assert(high * 256 + on <= 0xffff);
}

/// A device that was forced to D0 is waited for until its runtime status says
/// `active` or `unsupported`, looking once a millisecond and giving up after
/// five seconds.
pub proof fn a_device_is_waited_for(open: OpenState, reply: Reply)
    requires
        open.phase is Awaiting,
        reply.answers(open.request()),
    ensures
        open.phase == OpenPhase::Awaiting(Pace::Looking) ==> ({
            let awake = told_text(reply->Text_0) matches Ok(status) && (trimmed(status)
                == "active"@ || trimmed(status) == "unsupported"@);
            open.after(reply) == Step::<OpenState, OpenEnd>::Next(
                OpenState {
                    phase: if awake {
                        OpenPhase::Command
                    } else {
                        OpenPhase::Awaiting(Pace::Timing)
                    },
                    ..open
                },
            )
        }),
        open.phase == OpenPhase::Awaiting(Pace::Timing) ==> ({
            &&& reply->Nanos_0 <= 5_000_000_000 ==> open.after(reply) == Step::<
                OpenState,
                OpenEnd,
            >::Next(OpenState { phase: OpenPhase::Awaiting(Pace::Sleeping), ..open })
            &&& reply->Nanos_0 > 5_000_000_000 ==> match open.after(reply) {
                Step::Next(next) => next.phase == OpenPhase::Restoring && (next.error->0).0
                    == ErrorKind::TimedOut,
                Step::Done(end) => end is Err && end->Err_0.0 == ErrorKind::TimedOut,
            }
        }),
        open.phase == OpenPhase::Awaiting(Pace::Sleeping) ==> open.request() == Request::Sleep(1)
            && open.after(reply) == Step::<OpenState, OpenEnd>::Next(
            OpenState { phase: OpenPhase::Awaiting(Pace::Looking), ..open },
        ),
{
}

/// A PCI function as the kernel shows it below its directory.
pub ghost struct Function {
    pub path: Seq<char>,
    pub vendor: u16,
    pub device: u16,
    /// The length of its first BAR.
    pub len: u64,
    /// Its runtime-PM policy, if it can be suspended at all.
    pub policy: Option<Seq<char>>,
    pub command: u16,
}

impl Function {
    /// Whether its directory is one, and its policy a word.
    pub open spec fn well_formed(self) -> bool {
        &&& self.path.len() > 0
        &&& self.path.last() != '/'
        &&& self.policy matches Some(policy) ==> is_trim(policy)
    }

    /// Whether `reply` is what the kernel says of it; when it wakes and how the
    /// time goes is left open.
    pub open spec fn says(self, request: Request, reply: Reply) -> bool {
        &&& reply.answers(request)
        &&& match request {
            Request::Exists(path) => reply->Flag_0 == (path == self.path),
            Request::ReadText(path) => {
                &&& path == self.path + "/vendor"@ ==> told_text(reply->Text_0) == Ok::<
                    Seq<char>,
                    Told,
                >(seq!['0', 'x'] + hex(self.vendor as int, 4) + seq!['\n'])
                &&& path == self.path + "/device"@ ==> told_text(reply->Text_0) == Ok::<
                    Seq<char>,
                    Told,
                >(seq!['0', 'x'] + hex(self.device as int, 4) + seq!['\n'])
                &&& path == self.path + "/power/control"@ ==> match self.policy {
                    Some(policy) => told_text(reply->Text_0) == Ok::<Seq<char>, Told>(
                        policy + seq!['\n'],
                    ),
                    None => told_text(reply->Text_0) is Err,
                }
            },
            Request::MapFile(path) => path == self.path + "/resource0"@ ==> told_length(
                reply->Length_0,
            ) == Ok::<u64, Told>(self.len),
            Request::ReadBytes(path, at) => path == self.path + "/config"@ && at == 4 ==> told_bytes(
                reply->Bytes_0,
            ) == Ok::<(u8, u8), Told>(((self.command % 256) as u8, (self.command / 256) as u8)),
            Request::WriteText(_, _)
            | Request::WriteBytes(_, _, _, _) => told_unit(reply->Unit_0) is Ok,
            _ => true,
        }
    }

    /// What a request makes of it.
    pub open spec fn took(self, request: Request) -> Function {
        match request {
            Request::WriteText(path, content) => if path == self.path + "/power/control"@ {
                Function { policy: Some(content), ..self }
            } else {
                self
            },
            Request::WriteBytes(path, at, low, high) => if path == self.path + "/config"@ && at
                == 4 {
                Function { command: (high * 256 + low) as u16, ..self }
            } else {
                self
            },
            _ => self,
        }
    }
}

/// What an opening comes to with some replies, if it ends with them, and what it
/// leaves the function as.
pub open spec fn open_run(open: OpenState, function: Function, replies: Seq<Reply>) -> (
    Option<OpenEnd>,
    Function,
)
    decreases replies.len(),
{
    if replies.len() == 0 {
        (None, function)
    } else {
        let left = function.took(open.request());
        match open.after(replies[0]) {
            Step::Done(end) => (Some(end), left),
            Step::Next(next) => open_run(next, left, replies.drop_first()),
        }
    }
}

/// Whether the replies to an opening are all what the kernel says.
pub open spec fn open_told(open: OpenState, function: Function, replies: Seq<Reply>) -> bool
    decreases replies.len(),
{
    replies.len() > 0 ==> {
        &&& function.says(open.request(), replies[0])
        &&& open.after(replies[0]) matches Step::Next(next) ==> open_told(
            next,
            function.took(open.request()),
            replies.drop_first(),
        )
    }
}

/// What a closing leaves a function as, if it ends with some replies.
pub open spec fn close_run(close: Step<CloseState, ()>, function: Function, replies: Seq<Reply>) -> (
    bool,
    Function,
)
    decreases replies.len(),
{
    match close {
        Step::Done(()) => (true, function),
        Step::Next(now) => if replies.len() == 0 {
            (false, function)
        } else {
            close_run(now.after(replies[0]), function.took(now.request()), replies.drop_first())
        },
    }
}

/// Whether the replies to a closing are all what the kernel says.
pub open spec fn close_told(
    close: Step<CloseState, ()>,
    function: Function,
    replies: Seq<Reply>,
) -> bool
    decreases replies.len(),
{
    close matches Step::Next(now) ==> replies.len() > 0 ==> {
        &&& function.says(now.request(), replies[0])
        &&& close_told(
            now.after(replies[0]),
            function.took(now.request()),
            replies.drop_first(),
        )
    }
}

/// The paths that are read and written below a function's directory.
proof fn lemma_device_files(path: Seq<char>)
    requires
        path.len() > 0,
        path.last() != '/',
    ensures
        joined_path(path, "vendor"@) == path + "/vendor"@,
        joined_path(path, "device"@) == path + "/device"@,
        joined_path(path, "resource0"@) == path + "/resource0"@,
        control_path(path) == path + "/power/control"@,
        status_path(path) == path + "/power/runtime_status"@,
        config_path(path) == path + "/config"@,
{
    reveal_strlit("vendor");
    reveal_strlit("/vendor");
    reveal_strlit("device");
    reveal_strlit("/device");
    reveal_strlit("resource0");
    reveal_strlit("/resource0");
    reveal_strlit("power/control");
    reveal_strlit("/power/control");
    reveal_strlit("power/runtime_status");
    reveal_strlit("/power/runtime_status");
    reveal_strlit("config");
    reveal_strlit("/config");
}

/// What an opening may end in, of a function that it found as `found`.
pub open spec fn opened(
    dev: DevState,
    found: Function,
    end: Option<OpenEnd>,
    left: Function,
) -> bool {
    let on = found.policy is Some;
    match end {
        None => true,
        Some(Ok(got)) => {
            &&& got == DevState {
                power_control: found.policy,
                decoding_enabled: found.command & 2 == 0,
                ..dev
            }
            &&& left == Function {
                policy: if on {
                    Some("on"@)
                } else {
                    None
                },
                command: found.command | 2,
                ..found
            }
        },
        Some(Err(err)) => err.0 == ErrorKind::TimedOut && on && left == found,
    }
}

proof fn lemma_open_command(
    open: OpenState,
    found: Function,
    function: Function,
    replies: Seq<Reply>,
)
    requires
        found.well_formed(),
        open.phase == OpenPhase::Command,
        open.dev.path == found.path,
        open.dev.power_control == found.policy,
        !open.dev.decoding_enabled,
        function == (Function {
            policy: if found.policy is Some {
                Some("on"@)
            } else {
                None
            },
            ..found
        }),
        open_told(open, function, replies),
    ensures
        ({
            let (end, left) = open_run(open, function, replies);
            opened(open.dev, found, end, left)
        }),
{
    reveal_with_fuel(open_run, 4);
    reveal_with_fuel(open_told, 4);
    lemma_device_files(found.path);
    let c = found.command;
    let (low, high) = ((c % 256) as u8, (c / 256) as u8);
    assert(high * 256 + low == c);
    assert(command_of(low, high) == c);
    assert(c & 2 != 0 ==> c | 2 == c) by (bit_vector);
    let on = c | 2;
    assert(((on / 256) as u8) * 256 + ((on % 256) as u8) == on);
}

proof fn lemma_open_awaiting(
    open: OpenState,
    found: Function,
    function: Function,
    replies: Seq<Reply>,
)
    requires
        found.well_formed(),
        open.phase is Awaiting,
        open.dev.path == found.path,
        open.dev.power_control == found.policy,
        found.policy is Some,
        !open.dev.decoding_enabled,
        function == (Function { policy: Some("on"@), ..found }),
        open_told(open, function, replies),
    ensures
        ({
            let (end, left) = open_run(open, function, replies);
            opened(open.dev, found, end, left)
        }),
    decreases replies.len(),
{
    if replies.len() > 0 {
        let rest = replies.drop_first();
        match open.after(replies[0]) {
            Step::Done(_) => {},
            Step::Next(next) => {
                if next.phase is Awaiting {
                    lemma_open_awaiting(next, found, function, rest);
                } else if next.phase == OpenPhase::Command {
                    lemma_open_command(next, found, function, rest);
                } else {
                    reveal_with_fuel(open_run, 3);
                    lemma_device_files(found.path);
                }
            },
        }
    }
}

/// An opening finds the function as it is: its vendor, its device, the length of
/// its BAR and its policy. It leaves the function awake and answering memory
/// cycles, with no other bit of its COMMAND register changed, and remembers
/// whether that took a change. It fails only where the function does not wake in
/// time, and then leaves it as it was.
pub proof fn an_opening_readies_the_function(
    devices: Seq<char>,
    bdf: Seq<char>,
    function: Function,
    replies: Seq<Reply>,
)
    requires
        function.well_formed(),
        function.path == joined_path(devices, bdf),
        open_told(opening(devices, bdf), function, replies),
    ensures
        ({
            let (end, left) = open_run(opening(devices, bdf), function, replies);
            let dev = DevState {
                bdf,
                vendor: function.vendor,
                device: function.device,
                path: function.path,
                bar0_len: function.len,
                power_control: None,
                decoding_enabled: false,
            };
            opened(dev, function, end, left)
        }),
{
    let start = opening(devices, bdf);
    let dev = DevState {
        vendor: function.vendor,
        device: function.device,
        bar0_len: function.len,
        ..start.dev
    };
    reveal_with_fuel(open_run, 7);
    reveal_with_fuel(open_told, 7);
    lemma_device_files(function.path);
    let fault: Told = (ErrorKind::Other, seq![]);
    an_attribute_is_read(function.path, "vendor"@, function.vendor as nat, 4, fault);
    an_attribute_is_read(function.path, "device"@, function.device as nat, 4, fault);
    let r2 = replies.drop_first().drop_first();
    let r4 = r2.drop_first().drop_first();
    let (r5, r6) = (r4.drop_first(), r4.drop_first().drop_first());
    let s5 = OpenState { dev, phase: OpenPhase::Policy, ..start };
    if replies.len() > 4 {
        assert(open_run(start, function, replies) == open_run(s5, function, r4));
        assert(open_told(s5, function, r4));
        match function.policy {
            Some(policy) => {
                trimming_takes_off_what_is_around(seq![], policy, seq!['\n']);
                assert(seq![] + policy + seq!['\n'] =~= policy + seq!['\n']);
                let s6 = OpenState {
                    dev: DevState { power_control: Some(policy), ..dev },
                    phase: OpenPhase::Waking,
                    ..start
                };
                assert(s5.after(r4[0]) == Step::<OpenState, OpenEnd>::Next(s6));
                if r5.len() > 0 {
                    let s7 = OpenState { phase: OpenPhase::Awaiting(Pace::Starting), ..s6 };
                    assert(s6.after(r5[0]) == Step::<OpenState, OpenEnd>::Next(s7));
                    let awake = Function { policy: Some("on"@), ..function };
                    lemma_open_awaiting(s7, function, awake, r6);
                }
            },
            None => {
                let s6 = OpenState { phase: OpenPhase::Command, ..s5 };
                assert(s5.after(r4[0]) == Step::<OpenState, OpenEnd>::Next(s6));
                lemma_open_command(s6, function, function, r5);
            },
        }
    }
}

/// Closing what was opened leaves the function as the opening found it: its
/// COMMAND register and its policy.
pub proof fn closing_leaves_the_function_as_found(
    devices: Seq<char>,
    bdf: Seq<char>,
    function: Function,
    replies: Seq<Reply>,
    more: Seq<Reply>,
)
    requires
        function.well_formed(),
        function.path == joined_path(devices, bdf),
        open_told(opening(devices, bdf), function, replies),
        open_run(opening(devices, bdf), function, replies).0 matches Some(Ok(dev)) && close_told(
            closing(dev),
            open_run(opening(devices, bdf), function, replies).1,
            more,
        ),
    ensures
        ({
            let (end, left) = open_run(opening(devices, bdf), function, replies);
            let (done, after) = close_run(closing(end->0->Ok_0), left, more);
            done ==> after == function
        }),
{
    an_opening_readies_the_function(devices, bdf, function, replies);
    reveal_with_fuel(close_run, 4);
    reveal_with_fuel(close_told, 4);
    lemma_device_files(function.path);
    let c = function.command;
    let on = c | 2;
    assert(((on / 256) as u8) * 256 + ((on % 256) as u8) == on);
    assert(c & 2 != 0 ==> c | 2 == c) by (bit_vector);
    assert(c & 2 == 0 ==> (c | 2) & !2u16 == c) by (bit_vector);
    assert(((c / 256) as u8) * 256 + ((c % 256) as u8) == c);
}

/// A vendor or a device number is the low half of what is printed.
pub proof fn a_number_is_its_low_half(open: OpenState, content: String, value: u32, width: int)
    requires
        open.phase == OpenPhase::Vendor || open.phase == OpenPhase::Device,
        content@ == seq!['0', 'x'] + hex(value as int, width) + seq!['\n'],
    ensures
        open.after(Reply::Text(Ok(content))) matches Step::Next(next) && (if open.phase
            == OpenPhase::Vendor {
            next.phase == OpenPhase::Device && next.dev == (DevState {
                vendor: (value % 0x10000) as u16,
                ..open.dev
            })
        } else {
            next.phase == OpenPhase::Mapping && next.dev == (DevState {
                device: (value % 0x10000) as u16,
                ..open.dev
            })
        }),
{
    let fault: Told = (ErrorKind::Other, seq![]);
    an_attribute_is_read(open.dev.path, "vendor"@, value as nat, width, fault);
    an_attribute_is_read(open.dev.path, "device"@, value as nat, width, fault);
    assert(value as u16 == (value % 0x10000) as u16) by (bit_vector);
}

// --- What failures say -------------------------------------------------------

/// An opening that has failed, once the policy is back where it was changed.
pub open spec fn failed_with(open: OpenState, step: Step<OpenState, OpenEnd>, error: Told) -> bool {
    match open.dev.power_control {
        Some(_) => step == Step::<OpenState, OpenEnd>::Next(
            OpenState { phase: OpenPhase::Restoring, error: Some(error), ..open },
        ),
        None => step == Step::<OpenState, OpenEnd>::Done(Err(error)),
    }
}

/// Nothing is opened where there is no such device, where its numbers cannot be
/// read, where its BAR cannot be mapped or where it cannot be woken; what is told
/// is what the kernel said, after what was tried.
pub proof fn an_opening_fails_before_it_changes_anything(open: OpenState, fault: IoError)
    requires
        open.dev.path.len() > 0,
        open.dev.path.last() != '/',
    ensures
        ({
            let path = open.dev.path;
            let (kind, message) = (fault.kind, fault.message@);
            &&& open.phase == OpenPhase::Finding ==> open.after(Reply::Flag(false)) == Step::<
                OpenState,
                OpenEnd,
            >::Done(
                Err(
                    (
                        ErrorKind::NotFound,
                        "no PCI device "@ + open.dev.bdf + " under "@ + open.devices,
                    ),
                ),
            )
            &&& open.phase == OpenPhase::Vendor ==> open.after(Reply::Text(Err(fault))) == Step::<
                OpenState,
                OpenEnd,
            >::Done(Err((kind, "read "@ + path + "/vendor: "@ + message)))
            &&& open.phase == OpenPhase::Device ==> open.after(Reply::Text(Err(fault))) == Step::<
                OpenState,
                OpenEnd,
            >::Done(Err((kind, "read "@ + path + "/device: "@ + message)))
            &&& open.phase == OpenPhase::Mapping ==> open.after(Reply::Length(Err(fault)))
                == Step::<OpenState, OpenEnd>::Done(Err((kind, message)))
            &&& open.phase == OpenPhase::Waking ==> open.after(Reply::Unit(Err(fault))) == Step::<
                OpenState,
                OpenEnd,
            >::Done(
                Err(
                    (
                        kind,
                        "set "@ + path + "/power/control to on (needs root): "@ + message,
                    ),
                ),
            )
        }),
{
    let path = open.dev.path;
    let message = fault.message@;
    lemma_device_files(path);
    assert("read "@ + (path + "/"@ + "vendor"@) + ": "@ + message =~= "read "@ + path
        + "/vendor: "@ + message) by {
        reveal_strlit("/");
        reveal_strlit("vendor");
        reveal_strlit(": ");
        reveal_strlit("/vendor: ");
    }
    assert("read "@ + (path + "/"@ + "device"@) + ": "@ + message =~= "read "@ + path
        + "/device: "@ + message) by {
        reveal_strlit("/");
        reveal_strlit("device");
        reveal_strlit(": ");
        reveal_strlit("/device: ");
    }
    assert("set "@ + (path + "/power/control"@) + " to on (needs root)"@ + ": "@ + message =~= "set "@
        + path + "/power/control to on (needs root): "@ + message) by {
        reveal_strlit("/power/control");
        reveal_strlit(" to on (needs root)");
        reveal_strlit(": ");
        reveal_strlit("/power/control to on (needs root): ");
    }
}

/// A device that is awake, but whose COMMAND register cannot be read or written,
/// or that does not wake, is not open: its policy is put back first where it was
/// changed, and what is told is what the kernel said, after what was tried.
pub proof fn an_opening_that_fails_late_is_undone(open: OpenState, fault: IoError, reply: Reply)
    requires
        open.dev.path.len() > 0,
        open.dev.path.last() != '/',
    ensures
        ({
            let path = open.dev.path;
            let (kind, message) = (fault.kind, fault.message@);
            &&& open.phase == OpenPhase::Command || open.phase == OpenPhase::CommandAgain
                ==> failed_with(
                open,
                open.after(Reply::Bytes(Err(fault))),
                (kind, "read COMMAND from "@ + path + "/config (needs root): "@ + message),
            )
            &&& open.phase is Enabling ==> failed_with(
                open,
                open.after(Reply::Unit(Err(fault))),
                (kind, "set memory decoding on "@ + path + "/config (needs root): "@ + message),
            )
            &&& open.phase == OpenPhase::Awaiting(Pace::Timing) ==> failed_with(
                open,
                open.after(Reply::Nanos(u64::MAX)),
                (ErrorKind::TimedOut, "timed out waiting for device wakeup from D3"@),
            )
            &&& open.phase == OpenPhase::Restoring && open.error is Some ==> open.after(reply)
                == Step::<OpenState, OpenEnd>::Done(Err(open.error->0))
        }),
{
    let path = open.dev.path;
    let message = fault.message@;
    lemma_device_files(path);
    assert("read COMMAND from "@ + (path + "/config"@) + " (needs root)"@ + ": "@ + message
        =~= "read COMMAND from "@ + path + "/config (needs root): "@ + message) by {
        reveal_strlit("/config");
        reveal_strlit(" (needs root)");
        reveal_strlit(": ");
        reveal_strlit("/config (needs root): ");
    }
    assert("set memory decoding on "@ + (path + "/config"@) + " (needs root)"@ + ": "@ + message
        =~= "set memory decoding on "@ + path + "/config (needs root): "@ + message) by {
        reveal_strlit("/config");
        reveal_strlit(" (needs root)");
        reveal_strlit(": ");
        reveal_strlit("/config (needs root): ");
    }
    assert("timed out waiting for "@ + "device wakeup from D3"@
        =~= "timed out waiting for device wakeup from D3"@) by {
        reveal_strlit("timed out waiting for ");
        reveal_strlit("device wakeup from D3");
        reveal_strlit("timed out waiting for device wakeup from D3");
    }
}

/// A reset comes to what its write came to, and a failure of it names the device;
/// what is no address is refused as such.
pub proof fn a_failed_reset_names_the_device(
    reset: ResetRequest,
    fault: IoError,
    address: Seq<char>,
)
    ensures
        reset.end(Reply::Unit(Ok(()))) == Ok::<(), Told>(()),
        reset.end(Reply::Unit(Err(fault))) == Err::<(), Told>(
            (fault.kind, reset.bdf + ": reset via sysfs: "@ + fault.message@),
        ),
        not_an_address(address) == (
            ErrorKind::InvalidInput,
            debug_quoted(address) + " is not a PCI address"@,
        ),
{
    let message = fault.message@;
    assert(reset.bdf + ": reset via sysfs"@ + ": "@ + message =~= reset.bdf
        + ": reset via sysfs: "@ + message) by {
        reveal_strlit(": reset via sysfs");
        reveal_strlit(": ");
        reveal_strlit(": reset via sysfs: ");
    }
}

/// An open device shows what it holds.
pub proof fn a_device_shows_its_fields(dev: PciDev)
    ensures
        dev@.bdf == dev.bdf@,
        dev@.vendor == dev.vendor,
        dev@.device == dev.device,
        dev@.path == dev.path@,
        dev@.bar0_len == dev.bar0_len,
        dev@.decoding_enabled == dev.decoding_enabled,
        dev.power_control is None <==> dev@.power_control is None,
        dev.power_control matches Some(policy) ==> dev@.power_control == Some(policy@),
{
}

/// An opening or a closing stands where its state says, and ends in what it hands
/// out.
pub proof fn where_an_opening_stands(
    open: OpenDev,
    dev: PciDev,
    close: CloseDev,
    err: IoError,
    bytes: (u8, u8),
)
    ensures
        open_step(Step::Next(open)) == Step::<OpenState, OpenEnd>::Next(open@),
        open_step(Step::Done(Ok(dev))) == Step::<OpenState, OpenEnd>::Done(Ok(dev@)),
        open_step(Step::Done(Err(err))) == Step::<OpenState, OpenEnd>::Done(
            Err((err.kind, err.message@)),
        ),
        close_step(Step::Next(close)) == Step::<CloseState, ()>::Next(close@),
        close_step(Step::Done(())) == Step::<CloseState, ()>::Done(()),
        told_bytes(Ok(bytes)) == Ok::<(u8, u8), Told>(bytes),
        told_bytes(Err(err)) == Err::<(u8, u8), Told>((err.kind, err.message@)),
{
}

} // verus!
