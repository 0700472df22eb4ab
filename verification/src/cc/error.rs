//! Why a mode could not be read or set.

use vstd::prelude::*;

use crate::cc::chip::Chip;
use crate::cc::fsp::{FspError, RpcError, RpcFault};
use crate::cc::script::{Stop, Way, What};
use crate::kernel::{timed_out_message, told, IoError, Told};
use crate::number::{decimal, hex, push_decimal, push_hex};
use crate::text::{
    cat, debug_quoted, glue, has_part, joined, joining_keeps_every_text,
    joining_puts_a_separator_between, lemma_part_of_more, quote,
};

verus! {

// --- Failed RPCs -------------------------------------------------------------

/// Some dwords as a list of hex numbers.
pub open spec fn hex_list(words: Seq<u32>) -> Seq<char> {
    "["@ + joined(hex_items(words), ", "@) + "]"@
}

pub open spec fn hex_items(words: Seq<u32>) -> Seq<Seq<char>> {
    words.map_values(|w: u32| hex(w as int, 1))
}

fn push_hex_list(out: &mut String, words: &Vec<u32>)
    ensures
        final(out)@ == old(out)@ + hex_list(words@),
{
    let ghost before = out@;
    out.append("[");
    let mut i: usize = 0;
    while i < words.len()
        invariant
            i <= words.len(),
            out@ =~= before + "["@ + joined(hex_items(words@.take(i as int)), ", "@),
        decreases words.len() - i,
    {
        if i > 0 {
            out.append(", ");
        }
        push_hex(out, words[i] as u64, 1);
        i = i + 1;
        proof {
            let now = hex_items(words@.take(i as int));
            assert(now.drop_last() =~= hex_items(words@.take(i - 1)));
            assert(now.last() == hex(words@[i - 1] as int, 1));
        }
    }
    assert(words@.take(i as int) =~= words@);
    out.append("]");
    assert(out@ =~= before + hex_list(words@));
}

impl Way {
    pub open spec fn text(self) -> Seq<char> {
        match self {
            Way::Send => "send"@,
            Way::Receive => "receive"@,
        }
    }
}

/// What an RPC fault says.
pub open spec fn rpc_text(fault: RpcFault, words: Seq<u32>) -> Seq<char> {
    match fault {
        RpcFault::TimedOut(what) => timed_out_message(what.text()),
        RpcFault::CommandTooLarge => "FSP command exceeds EMEM channel"@,
        RpcFault::ResponseTooLarge => "FSP response exceeds EMEM channel"@,
        RpcFault::Mnoc(way, info) => "FSP MNOC "@ + way.text() + " error: 0x"@ + hex(
            info as int,
            1,
        ),
        RpcFault::MnocResponseTooLarge(bytes) => "FSP MNOC response too large: 0x"@ + hex(
            bytes as int,
            1,
        ) + " bytes"@,
        RpcFault::ResponseTooShort => "FSP response too short: "@ + hex_list(words),
        RpcFault::WrongNvdmType => "FSP response has wrong nvdm type: "@ + hex_list(words),
        RpcFault::WrongCommand => "FSP response for wrong command: "@ + hex_list(words),
        RpcFault::Completion(fsp) => fsp.text(),
        RpcFault::BadRead(knob) => "knob "@ + decimal(knob as int) + " read: bad response "@
            + hex_list(words),
        RpcFault::BadWrite(knob) => "knob "@ + decimal(knob as int) + " write: bad response "@
            + hex_list(words),
        RpcFault::NoPpcie => "firmware does not support PPCIE; a firmware update is required"@,
    }
}

impl RpcError {
    /// What went wrong, in words.
    pub fn message(&self) -> (r: String)
        ensures
            r@ == rpc_text(self.fault, self.words@),
    {
        let mut r: String = String::new();
        match self.fault {
            RpcFault::TimedOut(what) => {
                r.append("timed out waiting for ");
                r.append(what.name());
            },
            RpcFault::CommandTooLarge => {
                r.append("FSP command exceeds EMEM channel");
            },
            RpcFault::ResponseTooLarge => {
                r.append("FSP response exceeds EMEM channel");
            },
            RpcFault::Mnoc(way, info) => {
                r.append("FSP MNOC ");
                match way {
                    Way::Send => {
                        r.append("send");
                    },
                    Way::Receive => {
                        r.append("receive");
                    },
                }
                r.append(" error: 0x");
                push_hex(&mut r, info as u64, 1);
            },
            RpcFault::MnocResponseTooLarge(bytes) => {
                r.append("FSP MNOC response too large: 0x");
                push_hex(&mut r, bytes as u64, 1);
                r.append(" bytes");
            },
            RpcFault::ResponseTooShort => {
                r.append("FSP response too short: ");
                push_hex_list(&mut r, &self.words);
            },
            RpcFault::WrongNvdmType => {
                r.append("FSP response has wrong nvdm type: ");
                push_hex_list(&mut r, &self.words);
            },
            RpcFault::WrongCommand => {
                r.append("FSP response for wrong command: ");
                push_hex_list(&mut r, &self.words);
            },
            RpcFault::Completion(fsp) => {
                r.append(&fsp.to_string());
            },
            RpcFault::BadRead(knob) => {
                r.append("knob ");
                push_decimal(&mut r, knob as u64);
                r.append(" read: bad response ");
                push_hex_list(&mut r, &self.words);
            },
            RpcFault::BadWrite(knob) => {
                r.append("knob ");
                push_decimal(&mut r, knob as u64);
                r.append(" write: bad response ");
                push_hex_list(&mut r, &self.words);
            },
            RpcFault::NoPpcie => {
                r.append("firmware does not support PPCIE; a firmware update is required");
            },
        }
        assert(r@ =~= rpc_text(self.fault, self.words@));
        r
    }
}

// --- Failures of a device ----------------------------------------------------

/// What is the matter with a device.
#[derive(Clone, Copy, Debug)]
pub enum DeviceFault {
    /// It is another vendor's.
    NotNvidia(u16),
    /// Its device id is not that of a CC-capable GPU.
    NotCcCapable(u16),
    /// Its registers read all-ones.
    Bar0Inaccessible,
    /// It refuses register access, and what its BOOT_0 reads.
    SecurityFault(u32),
    /// It reports devtools without CC.
    InvalidCcState,
    /// Its CC mode belongs to system firmware.
    C2c,
    /// Its generation has no PPCIE.
    NoPpcie(Chip),
    /// Its BOOT_0 is not that of a PPCIE-capable switch.
    NotPpcieSwitch(u32),
}

/// What a faulty device is said to be.
pub open spec fn device_text(bdf: Seq<char>, fault: DeviceFault) -> Seq<char> {
    match fault {
        DeviceFault::NotNvidia(vendor) => bdf + ": vendor 0x"@ + hex(vendor as int, 4)
            + " is not NVIDIA"@,
        DeviceFault::NotCcCapable(device) => bdf + ": device 0x"@ + hex(device as int, 4)
            + " is not a CC-capable GPU (Hopper or Blackwell)"@,
        DeviceFault::Bar0Inaccessible => bdf + ": BAR0 not accessible"@,
        DeviceFault::SecurityFault(boot0) => bdf
            + ": GPU is in a security-fault state (BOOT_0 = 0x"@ + hex(boot0 as int, 8) + ")"@,
        DeviceFault::InvalidCcState => bdf
            + ": invalid CC state (devtools without CC); fix by setting a CC mode"@,
        DeviceFault::C2c => bdf
            + ": enabling CC in-band is not supported on C2C (Grace) systems"@,
        DeviceFault::NoPpcie(chip) => bdf + ": "@ + chip.name@
            + " does not support PPCIE (Hopper only)"@,
        DeviceFault::NotPpcieSwitch(boot0) => bdf + ": NV_PMC_BOOT_0 0x"@ + hex(boot0 as int, 8)
            + " is not a PPCIE-capable NVSwitch"@,
    }
}

fn describe(bdf: &str, fault: DeviceFault) -> (r: String)
    ensures
        r@ == device_text(bdf@, fault),
{
    let mut r: String = String::new();
    r.append(bdf);
    match fault {
        DeviceFault::NotNvidia(vendor) => {
            r.append(": vendor 0x");
            push_hex(&mut r, vendor as u64, 4);
            r.append(" is not NVIDIA");
        },
        DeviceFault::NotCcCapable(device) => {
            r.append(": device 0x");
            push_hex(&mut r, device as u64, 4);
            r.append(" is not a CC-capable GPU (Hopper or Blackwell)");
        },
        DeviceFault::Bar0Inaccessible => {
            r.append(": BAR0 not accessible");
        },
        DeviceFault::SecurityFault(boot0) => {
            r.append(": GPU is in a security-fault state (BOOT_0 = 0x");
            push_hex(&mut r, boot0 as u64, 8);
            r.append(")");
        },
        DeviceFault::InvalidCcState => {
            r.append(": invalid CC state (devtools without CC); fix by setting a CC mode");
        },
        DeviceFault::C2c => {
            r.append(": enabling CC in-band is not supported on C2C (Grace) systems");
        },
        DeviceFault::NoPpcie(chip) => {
            r.append(": ");
            r.append(chip.name);
            r.append(" does not support PPCIE (Hopper only)");
        },
        DeviceFault::NotPpcieSwitch(boot0) => {
            r.append(": NV_PMC_BOOT_0 0x");
            push_hex(&mut r, boot0 as u64, 8);
            r.append(" is not a PPCIE-capable NVSwitch");
        },
    }
    assert(r@ =~= device_text(bdf@, fault));
    r
}

// --- Errors ------------------------------------------------------------------

/// Why a mode could not be read or set.
#[derive(Debug)]
pub enum CcError {
    /// A text that names no CC mode.
    NotCcMode(String),
    /// A text that names no PPCIE mode.
    NotPpcieMode(String),
    /// The PCI tree could not be listed.
    PciTree(IoError),
    /// A file could not be read or written, or a device not be found.
    Io(IoError),
    /// A register did not come to read what it has to in time.
    TimedOut(What),
    /// The FSP could not be talked to.
    Rpc(RpcError),
    /// The FSP could not be talked to, or refused, while setting PPCIE.
    SetPpcie(String, RpcError),
    /// A device will not do, and its address.
    Device(String, DeviceFault),
}

/// A [`CcError`] with the text it carries.
pub enum CcFault {
    NotCcMode(Seq<char>),
    NotPpcieMode(Seq<char>),
    PciTree(Told),
    Io(Told),
    TimedOut(What),
    Rpc((RpcFault, Seq<u32>)),
    SetPpcie(Seq<char>, (RpcFault, Seq<u32>)),
    Device(Seq<char>, DeviceFault),
}

impl View for CcError {
    type V = CcFault;

    open spec fn view(&self) -> CcFault {
        match *self {
            CcError::NotCcMode(s) => CcFault::NotCcMode(s@),
            CcError::NotPpcieMode(s) => CcFault::NotPpcieMode(s@),
            CcError::PciTree(err) => CcFault::PciTree(told(err)),
            CcError::Io(err) => CcFault::Io(told(err)),
            CcError::TimedOut(what) => CcFault::TimedOut(what),
            CcError::Rpc(err) => CcFault::Rpc((err.fault, err.words@)),
            CcError::SetPpcie(bdf, err) => CcFault::SetPpcie(bdf@, (err.fault, err.words@)),
            CcError::Device(bdf, fault) => CcFault::Device(bdf@, fault),
        }
    }
}

impl CcFault {
    /// The whole chain of causes, outermost first.
    pub open spec fn text(self) -> Seq<char> {
        match self {
            CcFault::NotCcMode(s) => "invalid CC mode "@ + debug_quoted(s)
                + " (expected off, on or devtools)"@,
            CcFault::NotPpcieMode(s) => "invalid PPCIE mode "@ + debug_quoted(s)
                + " (expected off or on)"@,
            CcFault::PciTree(err) => "read sysfs PCI tree: "@ + err.1,
            CcFault::Io(err) => err.1,
            CcFault::TimedOut(what) => timed_out_message(what.text()),
            CcFault::Rpc(err) => rpc_text(err.0, err.1),
            CcFault::SetPpcie(bdf, err) => bdf + ": set PPCIE: "@ + rpc_text(err.0, err.1),
            CcFault::Device(bdf, fault) => device_text(bdf, fault),
        }
    }
}

impl CcError {
    /// What went wrong, and why: the whole chain of causes, outermost first.
    pub fn message(&self) -> (r: String)
        ensures
            r@ == self@.text(),
    {
        match self {
            CcError::NotCcMode(s) => glue(
                "invalid CC mode ",
                &quote(s),
                " (expected off, on or devtools)",
            ),
            CcError::NotPpcieMode(s) => glue(
                "invalid PPCIE mode ",
                &quote(s),
                " (expected off or on)",
            ),
            CcError::PciTree(err) => cat("read sysfs PCI tree: ", &err.message),
            CcError::Io(err) => err.message.clone(),
            CcError::TimedOut(what) => cat("timed out waiting for ", what.name()),
            CcError::Rpc(err) => err.message(),
            CcError::SetPpcie(bdf, err) => glue(bdf, ": set PPCIE: ", &err.message()),
            CcError::Device(bdf, fault) => describe(bdf, *fault),
        }
    }
}

/// Why a register program stopped, as an error.
pub open spec fn stop_error(stop: Stop) -> CcFault {
    match stop {
        Stop::TimedOut(what) => CcFault::TimedOut(what),
        Stop::ErrorBit(way, info) => CcFault::Rpc((RpcFault::Mnoc(way, info), seq![])),
    }
}

pub fn stopped(stop: Stop) -> (r: CcError)
    ensures
        r@ == stop_error(stop),
{
    match stop {
        Stop::TimedOut(what) => CcError::TimedOut(what),
        Stop::ErrorBit(way, info) => CcError::Rpc(
            RpcError { fault: RpcFault::Mnoc(way, info), words: Vec::new() },
        ),
    }
}

// --- What errors say ---------------------------------------------------------

/// Whether a text starts with another.
pub open spec fn starts_with(s: Seq<char>, start: Seq<char>) -> bool {
    s.len() >= start.len() && s.take(start.len() as int) == start
}

/// A fault of a device is told with its address first, and with the number that
/// gave it away.
pub proof fn a_device_fault_names_the_device(bdf: Seq<char>, number: u16, word: u32, chip: Chip)
    ensures
        forall|fault: DeviceFault|
            starts_with(#[trigger] device_text(bdf, fault), bdf + ": "@),
        has_part(device_text(bdf, DeviceFault::NotNvidia(number)), hex(number as int, 4)),
        has_part(device_text(bdf, DeviceFault::NotCcCapable(number)), hex(number as int, 4)),
        has_part(device_text(bdf, DeviceFault::SecurityFault(word)), hex(word as int, 8)),
        has_part(device_text(bdf, DeviceFault::NotPpcieSwitch(word)), hex(word as int, 8)),
        has_part(device_text(bdf, DeviceFault::NoPpcie(chip)), chip.name@),
{
    reveal_strlit(": ");
    reveal_strlit(": vendor 0x");
    reveal_strlit(": device 0x");
    reveal_strlit(": BAR0 not accessible");
    reveal_strlit(": GPU is in a security-fault state (BOOT_0 = 0x");
    reveal_strlit(": invalid CC state (devtools without CC); fix by setting a CC mode");
    reveal_strlit(": enabling CC in-band is not supported on C2C (Grace) systems");
    reveal_strlit(": NV_PMC_BOOT_0 0x");
    assert forall|fault: DeviceFault|
        starts_with(#[trigger] device_text(bdf, fault), bdf + ": "@) by {
        let n = bdf.len() as int + 2;
        assert(device_text(bdf, fault).take(n) =~= bdf + ": "@);
    }
    lemma_has_middle(bdf + ": vendor 0x"@, hex(number as int, 4), " is not NVIDIA"@);
    lemma_has_middle(
        bdf + ": device 0x"@,
        hex(number as int, 4),
        " is not a CC-capable GPU (Hopper or Blackwell)"@,
    );
    lemma_has_middle(
        bdf + ": GPU is in a security-fault state (BOOT_0 = 0x"@,
        hex(word as int, 8),
        ")"@,
    );
    lemma_has_middle(
        bdf + ": NV_PMC_BOOT_0 0x"@,
        hex(word as int, 8),
        " is not a PPCIE-capable NVSwitch"@,
    );
    lemma_has_middle(bdf + ": "@, chip.name@, " does not support PPCIE (Hopper only)"@);
}

proof fn lemma_has_middle(before: Seq<char>, part: Seq<char>, after: Seq<char>)
    ensures
        has_part(before + part + after, part),
{
    assert(part.subrange(0, 0 + part.len() as int) =~= part);
    lemma_part_of_more(before, part, after, part);
}

/// A refused response is told with every dword of it, and a refused knob with its
/// number; what the firmware refuses is told with its completion code.
pub proof fn an_rpc_fault_shows_what_came(words: Seq<u32>, i: int, knob: u32, code: u32, way: Way)
    requires
        0 <= i < words.len(),
    ensures
        has_part(rpc_text(RpcFault::ResponseTooShort, words), hex(words[i] as int, 1)),
        has_part(rpc_text(RpcFault::WrongNvdmType, words), hex(words[i] as int, 1)),
        has_part(rpc_text(RpcFault::WrongCommand, words), hex(words[i] as int, 1)),
        has_part(rpc_text(RpcFault::BadRead(knob), words), hex(words[i] as int, 1)),
        has_part(rpc_text(RpcFault::BadWrite(knob), words), hex(words[i] as int, 1)),
        has_part(rpc_text(RpcFault::BadRead(knob), words), decimal(knob as int)),
        has_part(rpc_text(RpcFault::BadWrite(knob), words), decimal(knob as int)),
        rpc_text(RpcFault::Completion(FspError { code }), words)
            == "FSP RPC failed with completion code 0x"@ + hex(code as int, 1),
        has_part(rpc_text(RpcFault::Mnoc(way, code), words), hex(code as int, 1)),
        has_part(rpc_text(RpcFault::MnocResponseTooLarge(code), words), hex(code as int, 1)),
{
    let none = Seq::<char>::empty();
    let items = hex_items(words);
    let list = hex_list(words);
    let word = hex(words[i] as int, 1);
    assert(items[i] == word);
    joining_keeps_every_text(items, ", "@, i);
    lemma_part_of_more("["@, joined(items, ", "@), "]"@, word);
    lemma_part_of_more("FSP response too short: "@, list, none, word);
    lemma_part_of_more("FSP response has wrong nvdm type: "@, list, none, word);
    lemma_part_of_more("FSP response for wrong command: "@, list, none, word);
    assert("FSP response too short: "@ + list + none =~= "FSP response too short: "@ + list);
    assert("FSP response has wrong nvdm type: "@ + list + none
        =~= "FSP response has wrong nvdm type: "@ + list);
    assert("FSP response for wrong command: "@ + list + none =~= "FSP response for wrong command: "@
        + list);
    let name = decimal(knob as int);
    let read = "knob "@ + name + " read: bad response "@;
    let write = "knob "@ + name + " write: bad response "@;
    lemma_part_of_more(read, list, none, word);
    lemma_part_of_more(write, list, none, word);
    assert(read + list + none =~= read + list);
    assert(write + list + none =~= write + list);
    lemma_has_middle("knob "@, name, " read: bad response "@ + list);
    lemma_has_middle("knob "@, name, " write: bad response "@ + list);
    assert("knob "@ + name + (" read: bad response "@ + list) =~= read + list);
    assert("knob "@ + name + (" write: bad response "@ + list) =~= write + list);
    let front = "FSP MNOC "@ + way.text() + " error: 0x"@;
    lemma_has_middle(front, hex(code as int, 1), none);
    assert(front + hex(code as int, 1) + none =~= front + hex(code as int, 1));
    lemma_has_middle("FSP MNOC response too large: 0x"@, hex(code as int, 1), " bytes"@);
}

/// A text that names no mode is quoted back, a failure to set PPCIE names the
/// device, and any other error is told in its own words.
pub proof fn an_error_tells_its_cause(
    s: Seq<char>,
    told: Told,
    fault: (RpcFault, Seq<u32>),
    device: DeviceFault,
    what: What,
    way: Way,
    info: u32,
)
    ensures
        has_part(CcFault::NotCcMode(s).text(), debug_quoted(s)),
        has_part(CcFault::NotPpcieMode(s).text(), debug_quoted(s)),
        has_part(CcFault::PciTree(told).text(), told.1),
        CcFault::Io(told).text() == told.1,
        CcFault::Rpc(fault).text() == rpc_text(fault.0, fault.1),
        starts_with(CcFault::SetPpcie(s, fault).text(), s + ": "@),
        has_part(CcFault::SetPpcie(s, fault).text(), rpc_text(fault.0, fault.1)),
        CcFault::Device(s, device).text() == device_text(s, device),
        has_part(CcFault::TimedOut(what).text(), what.text()),
        stop_error(Stop::TimedOut(what)) == CcFault::TimedOut(what),
        stop_error(Stop::ErrorBit(way, info)) == CcFault::Rpc((RpcFault::Mnoc(way, info), seq![])),
{
    let none = Seq::<char>::empty();
    let cause = rpc_text(fault.0, fault.1);
    lemma_has_middle("invalid CC mode "@, debug_quoted(s), " (expected off, on or devtools)"@);
    lemma_has_middle("invalid PPCIE mode "@, debug_quoted(s), " (expected off or on)"@);
    lemma_has_middle("read sysfs PCI tree: "@, told.1, none);
    assert("read sysfs PCI tree: "@ + told.1 + none =~= "read sysfs PCI tree: "@ + told.1);
    lemma_has_middle(s + ": set PPCIE: "@, cause, none);
    assert(s + ": set PPCIE: "@ + cause + none =~= s + ": set PPCIE: "@ + cause);
    lemma_has_middle("timed out waiting for "@, what.text(), none);
    assert("timed out waiting for "@ + what.text() + none =~= "timed out waiting for "@
        + what.text());
    reveal_strlit(": ");
    reveal_strlit(": set PPCIE: ");
    assert((s + ": set PPCIE: "@ + cause).take(s.len() as int + 2) =~= s + ": "@);
}

/// A device fault in words, after its address.
pub proof fn device_faults_are_worded_so(bdf: Seq<char>, number: u16, word: u32, chip: Chip)
    ensures
        device_text(bdf, DeviceFault::NotNvidia(number)) == bdf + ": vendor 0x"@ + hex(
            number as int,
            4,
        ) + " is not NVIDIA"@,
        device_text(bdf, DeviceFault::NotCcCapable(number)) == bdf + ": device 0x"@ + hex(
            number as int,
            4,
        ) + " is not a CC-capable GPU (Hopper or Blackwell)"@,
        device_text(bdf, DeviceFault::Bar0Inaccessible) == bdf + ": BAR0 not accessible"@,
        device_text(bdf, DeviceFault::SecurityFault(word)) == bdf
            + ": GPU is in a security-fault state (BOOT_0 = 0x"@ + hex(word as int, 8) + ")"@,
        device_text(bdf, DeviceFault::InvalidCcState) == bdf
            + ": invalid CC state (devtools without CC); fix by setting a CC mode"@,
        device_text(bdf, DeviceFault::C2c) == bdf
            + ": enabling CC in-band is not supported on C2C (Grace) systems"@,
        device_text(bdf, DeviceFault::NoPpcie(chip)) == bdf + ": "@ + chip.name@
            + " does not support PPCIE (Hopper only)"@,
        device_text(bdf, DeviceFault::NotPpcieSwitch(word)) == bdf + ": NV_PMC_BOOT_0 0x"@ + hex(
            word as int,
            8,
        ) + " is not a PPCIE-capable NVSwitch"@,
{
}

/// A failed RPC in words, but for what it shows of numbers and dwords.
pub proof fn rpc_faults_are_worded_so(words: Seq<u32>, what: What, code: u32)
    ensures
        rpc_text(RpcFault::TimedOut(what), words) == "timed out waiting for "@ + what.text(),
        rpc_text(RpcFault::CommandTooLarge, words) == "FSP command exceeds EMEM channel"@,
        rpc_text(RpcFault::ResponseTooLarge, words) == "FSP response exceeds EMEM channel"@,
        rpc_text(RpcFault::NoPpcie, words)
            == "firmware does not support PPCIE; a firmware update is required"@,
        rpc_text(RpcFault::Mnoc(Way::Send, code), words) == "FSP MNOC send error: 0x"@ + hex(
            code as int,
            1,
        ),
        rpc_text(RpcFault::Mnoc(Way::Receive, code), words) == "FSP MNOC receive error: 0x"@ + hex(
            code as int,
            1,
        ),
        hex_list(seq![code]) == "["@ + hex(code as int, 1) + "]"@,
        hex_list(seq![code, code]) == "["@ + hex(code as int, 1) + ", "@ + hex(code as int, 1)
            + "]"@,
{
    let number = hex(code as int, 1);
    assert("FSP MNOC "@ + "send"@ + " error: 0x"@ + number =~= "FSP MNOC send error: 0x"@ + number)
        by {
        reveal_strlit("FSP MNOC ");
        reveal_strlit("send");
        reveal_strlit(" error: 0x");
        reveal_strlit("FSP MNOC send error: 0x");
    }
    assert("FSP MNOC "@ + "receive"@ + " error: 0x"@ + number =~= "FSP MNOC receive error: 0x"@
        + number) by {
        reveal_strlit("FSP MNOC ");
        reveal_strlit("receive");
        reveal_strlit(" error: 0x");
        reveal_strlit("FSP MNOC receive error: 0x");
    }
    let one = seq![number];
    assert(hex_items(seq![code]) =~= one);
    assert(hex_items(seq![code, code]) =~= one + one);
    joining_puts_a_separator_between(one, one, ", "@);
    assert(seq![one[0]] =~= one);
    assert("["@ + (number + ", "@ + number) + "]"@ =~= "["@ + number + ", "@ + number + "]"@);
}

/// An error shows what it carries.
pub proof fn an_error_shows_what_it_carries(
    s: String,
    err: IoError,
    what: What,
    rpc: RpcError,
    device: DeviceFault,
)
    ensures
        CcError::NotCcMode(s)@ == CcFault::NotCcMode(s@),
        CcError::NotPpcieMode(s)@ == CcFault::NotPpcieMode(s@),
        CcError::PciTree(err)@ == CcFault::PciTree((err.kind, err.message@)),
        CcError::Io(err)@ == CcFault::Io((err.kind, err.message@)),
        CcError::TimedOut(what)@ == CcFault::TimedOut(what),
        CcError::Rpc(rpc)@ == CcFault::Rpc((rpc.fault, rpc.words@)),
        CcError::SetPpcie(s, rpc)@ == CcFault::SetPpcie(s@, (rpc.fault, rpc.words@)),
        CcError::Device(s, device)@ == CcFault::Device(s@, device),
{
}

} // verus!
