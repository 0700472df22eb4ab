use std::collections::{BTreeMap, VecDeque};

use pcilibs_rs::cc::fsp::{
    is_invalid_knob, mctp_msg_header, FspError, RpcError, RpcFault, EMEMC, EMEMD, EMEM_BASE,
    INVALID_KNOB, KNOB_2, KNOB_34, KNOB_4, KNOB_BAR0_DECOUPLER, KNOB_CCD, KNOB_CCM, KNOB_PPCIE,
    MCTP_HEADER, MNOC_CREDITS, MNOC_ERROR, MNOC_INFO_RECV, MNOC_INFO_SEND, MNOC_RDATA_SEND,
    MNOC_READY, MNOC_SIZE_MASK, MNOC_WDATA_RECV, MSGQ_HEAD, MSGQ_TAIL, NVDM_PRC, NVDM_RESPONSE,
    QUEUE_HEAD, QUEUE_TAIL,
};
use pcilibs_rs::cc::job::{
    BOOT_COMPLETE_OK, CC_STATE_BLACKWELL, CC_STATE_HOPPER, PPCIE_STATE_HOPPER, PPCIE_STATE_SWITCH,
};
use pcilibs_rs::cc::rpc::{Exchange, FspRpc, KnobJob};
use pcilibs_rs::cc::{
    chip_for, is_c2c, switch_for, CcError, CcMode, Gpu, NvSwitch, PpcieMode,
};
use pcilibs_rs::kernel::{failed, ErrorKind, Op, Procedure, Reply, Step};
use pcilibs_rs::pci_dev::PciDev;

const BDF: &str = "0000:65:00.0";
const GH100: u16 = 0x2330;
const GH200: u16 = 0x2342;
const GB100: u16 = 0x2901;

/// The PRC subcommand that reads a knob; anything else is a write.
const PRC_READ: u32 = 0xc;

/// Every knob the library touches: an absent one is firmware too old to
/// have it, which is a thing a test asks for deliberately.
const KNOBS: [u32; 7] = [
    KNOB_2,
    KNOB_4,
    KNOB_CCD,
    KNOB_CCM,
    KNOB_BAR0_DECOUPLER,
    KNOB_34,
    KNOB_PPCIE,
];

/// How the FSP should answer, so the checks above it have something to
/// catch.
#[derive(Clone, Copy, Debug, PartialEq)]
enum Fault {
    /// A non-zero completion code.
    Completion(u32),
    /// Something that is not an NVDM response.
    NvdmType,
    /// An answer to a command that was never sent.
    OtherCommand,
    /// Less than a response header.
    Short,
    /// One payload dword too many: two for a read, one for a write.
    ExtraDword,
    /// More than the channel can carry.
    Oversized,
    /// No answer at all.
    Silent,
    /// The MNOC error bit, on the way in.
    SendError,
    /// The MNOC error bit instead of an answer.
    ReceiveError,
    /// The MNOC error bit, once the payload has been handed over.
    LateError,
}

/// EMEM for Hopper and the switches, MNOC for Blackwell.
#[derive(Clone, Copy, Debug, PartialEq)]
enum Mailbox {
    Emem,
    Mnoc,
}

/// A model of the FSP behind either mailbox, with the `reset` file and the
/// clock beside it.
struct Fsp {
    mailbox: Mailbox,
    /// Registers neither mailbox owns.
    regs: BTreeMap<u32, u32>,
    knobs: BTreeMap<u32, u16>,
    /// The knob commands taken, in order: the knob, and what was written.
    commands: Vec<(u32, Option<u16>)>,
    fault: Option<Fault>,
    /// The knob `fault` applies to; all of them when None.
    faulty_knob: Option<u32>,
    /// The EMEM window by dword, carrying command then response.
    emem: Vec<u32>,
    emem_at: usize,
    queue_head: u32,
    queue_tail: u32,
    msgq_head: u32,
    msgq_tail: u32,
    expected: usize,
    command: Vec<u32>,
    response: VecDeque<u32>,
    info_send: u32,
    send_error: bool,
    late_error: bool,
    register_writes: usize,
    reset: String,
    reset_fails: bool,
    clock: u64,
    started: u64,
}

impl Fsp {
    fn new(mailbox: Mailbox) -> Fsp {
        Fsp {
            mailbox,
            regs: BTreeMap::new(),
            knobs: KNOBS.iter().map(|knob| (*knob, 0)).collect(),
            commands: Vec::new(),
            fault: None,
            faulty_knob: None,
            emem: vec![0; 1024],
            emem_at: 0,
            queue_head: 0,
            queue_tail: 0,
            msgq_head: 0,
            msgq_tail: 0,
            expected: 0,
            command: Vec::new(),
            response: VecDeque::new(),
            info_send: 0,
            send_error: false,
            late_error: false,
            register_writes: 0,
            reset: String::new(),
            reset_fails: false,
            clock: 0,
            started: 0,
        }
    }

    fn fail(&mut self, fault: Fault) {
        self.fault = Some(fault);
        self.faulty_knob = None;
    }

    /// Fault only this knob's command, so the ones before it still get
    /// through.
    fn fail_knob(&mut self, knob: u32, fault: Fault) {
        self.fault = Some(fault);
        self.faulty_knob = Some(knob);
    }

    fn knob(&self, knob: u32) -> Option<u16> {
        self.knobs.get(&knob).copied()
    }

    fn writes(&self) -> usize {
        self.commands.iter().filter(|(_, w)| w.is_some()).count()
    }

    fn read32(&mut self, offset: u32) -> u32 {
        match (self.mailbox, offset) {
            (Mailbox::Emem, QUEUE_HEAD) => self.queue_head,
            (Mailbox::Emem, QUEUE_TAIL) => self.queue_tail,
            (Mailbox::Emem, MSGQ_HEAD) => self.msgq_head,
            (Mailbox::Emem, MSGQ_TAIL) => self.msgq_tail,
            (Mailbox::Emem, EMEMD) => {
                self.emem_at += 1;
                self.emem[self.emem_at - 1]
            }
            (Mailbox::Mnoc, MNOC_INFO_RECV) => {
                let error = if self.send_error { MNOC_ERROR } else { 0 };
                MNOC_READY | MNOC_CREDITS | error
            }
            (Mailbox::Mnoc, MNOC_INFO_SEND) => {
                let drained = self.late_error && self.response.is_empty();
                self.info_send | if drained { MNOC_ERROR } else { 0 }
            }
            (Mailbox::Mnoc, MNOC_RDATA_SEND) => self.response.pop_front().unwrap_or(0),
            _ => self.regs.get(&offset).copied().unwrap_or(0),
        }
    }

    fn write32(&mut self, offset: u32, value: u32) {
        self.register_writes += 1;
        match (self.mailbox, offset) {
            (Mailbox::Emem, EMEMC) => self.emem_at = (value & 0x00ff_ffff) as usize / 4,
            (Mailbox::Emem, EMEMD) => {
                let at = self.emem_at;
                self.emem[at] = value;
                self.emem_at += 1;
            }
            (Mailbox::Emem, QUEUE_TAIL) => self.queue_tail = value,
            (Mailbox::Emem, QUEUE_HEAD) => {
                self.queue_head = value;
                // Head meeting tail is the queue being reset, not a
                // doorbell: no command here is one dword long.
                if self.queue_head != self.queue_tail {
                    self.answer_over_emem();
                }
            }
            (Mailbox::Emem, MSGQ_HEAD) => self.msgq_head = value,
            (Mailbox::Emem, MSGQ_TAIL) => self.msgq_tail = value,
            (Mailbox::Mnoc, MNOC_INFO_RECV) => {
                self.expected = (value & MNOC_SIZE_MASK) as usize / 4;
                self.command.clear();
            }
            (Mailbox::Mnoc, MNOC_WDATA_RECV) => {
                self.command.push(value);
                if self.command.len() == self.expected {
                    self.answer_over_mnoc();
                }
            }
            _ => {
                self.regs.insert(offset, value);
            }
        }
    }

    fn fault_of(&self, command: &[u32]) -> Option<Fault> {
        match self.faulty_knob {
            Some(knob) if knob != command[2] >> 16 => None,
            _ => self.fault,
        }
    }

    fn answer_over_emem(&mut self) {
        let base = EMEM_BASE as usize / 4;
        let dwords = (self.queue_tail.wrapping_sub(self.queue_head) / 4 + 1) as usize;
        let command = self.emem[base..base + dwords].to_vec();
        self.queue_tail = self.queue_head; // consumed
        let fault = self.fault_of(&command);
        if fault == Some(Fault::Silent) {
            return;
        }
        if fault == Some(Fault::Oversized) {
            // The queue registers alone say how much there is to read.
            self.msgq_head = EMEM_BASE;
            self.msgq_tail = EMEM_BASE + 256 * 4;
            return;
        }
        let response = self.answer(&command, fault);
        self.emem[base..base + response.len()].copy_from_slice(&response);
        self.msgq_head = EMEM_BASE;
        self.msgq_tail = EMEM_BASE + (response.len() as u32 - 1) * 4;
    }

    fn answer_over_mnoc(&mut self) {
        let command = std::mem::take(&mut self.command);
        let fault = self.fault_of(&command);
        match fault {
            Some(Fault::Silent) => return,
            Some(Fault::SendError) => {
                self.send_error = true;
                return;
            }
            Some(Fault::ReceiveError) => {
                self.info_send = MNOC_ERROR;
                return;
            }
            Some(Fault::Oversized) => {
                self.info_send = MNOC_READY | 2048;
                return;
            }
            Some(Fault::LateError) => self.late_error = true,
            _ => {}
        }
        let response = self.answer(&command, fault);
        self.info_send = MNOC_READY | (response.len() as u32 * 4);
        self.response = response.into();
    }

    fn answer(&mut self, command: &[u32], fault: Option<Fault>) -> Vec<u32> {
        let payload = &command[2..];
        let knob = payload[0] >> 16;
        let mut completion = 0;
        let mut body = Vec::new();
        if payload[0] & 0xff == PRC_READ {
            self.commands.push((knob, None));
            match self.knobs.get(&knob) {
                // Firmware leaves the dword's upper half as it found it.
                Some(value) => body.push(0xdead_0000 | u32::from(*value)),
                None => completion = INVALID_KNOB,
            }
        } else {
            self.commands.push((knob, Some(payload[1] as u16)));
            self.knobs.insert(knob, payload[1] as u16);
        }

        match fault {
            Some(Fault::Completion(code)) => completion = code,
            Some(Fault::ExtraDword) => body.push(0),
            _ => {}
        }
        let nvdm = if fault == Some(Fault::NvdmType) {
            NVDM_PRC
        } else {
            NVDM_RESPONSE
        };
        let answered = if fault == Some(Fault::OtherCommand) {
            NVDM_RESPONSE
        } else {
            NVDM_PRC
        };
        let mut response = vec![MCTP_HEADER, mctp_msg_header(nvdm), 0, answered, completion];
        response.extend(body);
        if fault == Some(Fault::Short) {
            response.truncate(4);
        }
        response
    }

    fn reply(&mut self, op: Op) -> Reply {
        match op {
            Op::Read32(offset) => Reply::Word(self.read32(offset)),
            Op::Write32(offset, value) => {
                self.write32(offset, value);
                Reply::Done
            }
            Op::StartTimer => {
                self.started = self.clock;
                Reply::Done
            }
            Op::Elapsed => Reply::Nanos(self.clock - self.started),
            Op::Sleep(ms) => {
                self.clock += ms * 1_000_000;
                Reply::Done
            }
            Op::WriteText(path, content) => {
                assert_eq!(path, "/fake/reset");
                if self.reset_fails {
                    let err = failed(ErrorKind::PermissionDenied, "denied".to_string());
                    Reply::Unit(Err(err))
                } else {
                    self.reset = content;
                    Reply::Unit(Ok(()))
                }
            }
            other => panic!("{other:?}"),
        }
    }

    fn run<P: Procedure>(&mut self, procedure: P) -> P::Output {
        let mut procedure = procedure;
        loop {
            let reply = self.reply(procedure.op());
            match procedure.resume(reply) {
                Step::Next(next) => procedure = next,
                Step::Done(output) => return output,
            }
        }
    }

    /// So a test of what is common to both can be written once.
    fn rpc(&mut self) -> FspRpc {
        match self.mailbox {
            Mailbox::Emem => self.run(FspRpc::emem()),
            Mailbox::Mnoc => FspRpc::mnoc(),
        }
    }

    fn job(&mut self, job: impl Fn(FspRpc) -> KnobJob) -> Result<Option<u16>, RpcError> {
        let rpc = self.rpc();
        self.run(job(rpc))
    }

    fn read_knob(&mut self, knob: u32) -> Result<Option<u16>, RpcError> {
        self.job(|rpc| rpc.knob_read(knob))
    }

    fn write_knob(&mut self, knob: u32, value: u16) -> Result<Option<u16>, RpcError> {
        self.job(|rpc| rpc.knob_write(knob, value))
    }
}

const BOTH: [Mailbox; 2] = [Mailbox::Emem, Mailbox::Mnoc];

fn emem() -> Fsp {
    Fsp::new(Mailbox::Emem)
}

fn mnoc() -> Fsp {
    Fsp::new(Mailbox::Mnoc)
}

// --- Knobs -------------------------------------------------------------------

/// The framing above the two transports is the same, so a knob is asked
/// of both.
#[test]
fn a_knob_written_reads_back() {
    for mailbox in BOTH {
        let mut fsp = Fsp::new(mailbox);

        assert_eq!(fsp.write_knob(KNOB_CCM, 1).unwrap(), None);

        assert_eq!(fsp.read_knob(KNOB_CCM).unwrap(), Some(1));
        assert_eq!(fsp.knob(KNOB_CCM), Some(1));
    }
}

/// The dword's upper half is not zero-initialized, so a knob is its low
/// 16 bits and nothing more.
#[test]
fn a_knob_read_keeps_only_the_low_half() {
    for mailbox in BOTH {
        let mut fsp = Fsp::new(mailbox);
        fsp.knobs.insert(KNOB_CCM, 3);

        assert_eq!(fsp.read_knob(KNOB_CCM).unwrap(), Some(3));
    }
}

/// These knobs live in flash, so one already at the value asked for is
/// read and left alone.
#[test]
fn a_knob_already_at_the_value_asked_for_is_not_written() {
    let mut fsp = emem();
    fsp.knobs.insert(KNOB_CCM, 1);

    fsp.job(|rpc| rpc.knob_check_and_write(KNOB_CCM, 1)).unwrap();
    assert_eq!(fsp.writes(), 0);

    fsp.job(|rpc| rpc.knob_check_and_write(KNOB_CCM, 0)).unwrap();
    assert_eq!((fsp.writes(), fsp.knob(KNOB_CCM)), (1, Some(0)));
}

/// Firmware that predates a knob is not a failure to pass on as one:
/// the caller carries on without it.
#[test]
fn a_knob_the_firmware_does_not_have_reads_as_invalid() {
    let mut fsp = emem();
    fsp.knobs.remove(&KNOB_PPCIE);

    let err = fsp.read_knob(KNOB_PPCIE).unwrap_err();

    assert!(is_invalid_knob(&err), "{err:?}");
}

#[test]
fn a_non_zero_completion_code_is_the_error() {
    let mut fsp = emem();
    fsp.fail(Fault::Completion(0x2a));

    let err = fsp.read_knob(KNOB_CCM).unwrap_err();

    assert_eq!(err.fault, RpcFault::Completion(FspError { code: 0x2a }));
}

#[test]
fn a_malformed_response_to_a_read_is_refused() {
    for (fault, expected) in [
        (Fault::NvdmType, "wrong nvdm type"),
        (Fault::OtherCommand, "for wrong command"),
        (Fault::Short, "response too short"),
        (Fault::ExtraDword, "read: bad response"),
    ] {
        let mut fsp = emem();
        fsp.fail(fault);

        let err = fsp.read_knob(KNOB_CCM).unwrap_err().message();

        assert!(err.contains(expected), "{err}");
    }
}

#[test]
fn a_write_answered_with_a_payload_is_refused() {
    let mut fsp = emem();
    fsp.fail(Fault::ExtraDword);

    let err = fsp.write_knob(KNOB_CCM, 1).unwrap_err().message();

    assert!(err.contains("write: bad response"), "{err}");
}

/// A client that died mid-RPC leaves the queues pointing into the window.
#[test]
fn a_stale_emem_queue_is_reset_before_first_use() {
    let mut fsp = emem();
    fsp.msgq_tail = 4;

    assert_eq!(fsp.read_knob(KNOB_CCM).unwrap(), Some(0));
}

#[test]
fn empty_queues_are_left_alone() {
    let mut fsp = emem();

    assert_eq!(fsp.rpc(), FspRpc::Emem);

    assert_eq!(fsp.register_writes, 0);
}

#[test]
fn a_command_in_flight_gets_time_to_be_answered() {
    let mut fsp = emem();
    fsp.queue_tail = 4;

    fsp.rpc();

    assert!(fsp.clock > 5_000_000_000);
    assert_eq!(
        [fsp.queue_head, fsp.queue_tail, fsp.msgq_head, fsp.msgq_tail],
        [EMEM_BASE; 4]
    );
}

#[test]
fn a_command_is_only_started_if_it_fits() {
    assert!(Exchange::prc_cmd(FspRpc::Emem, &vec![0; 254]).is_ok());
    assert!(matches!(
        Exchange::prc_cmd(FspRpc::Emem, &vec![0; 255]),
        Err(RpcFault::CommandTooLarge)
    ));
}

#[test]
fn an_emem_response_larger_than_the_channel_is_refused() {
    let mut fsp = emem();
    fsp.fail(Fault::Oversized);

    let err = fsp.read_knob(KNOB_CCM).unwrap_err().message();

    assert!(err.contains("response exceeds EMEM channel"), "{err}");
}

#[test]
fn an_mnoc_response_larger_than_the_mailbox_is_refused() {
    let mut fsp = mnoc();
    fsp.fail(Fault::Oversized);

    let err = fsp.read_knob(KNOB_CCM).unwrap_err().message();

    assert!(err.contains("MNOC response too large"), "{err}");
}

#[test]
fn an_mnoc_error_taking_the_command_is_reported() {
    let mut fsp = mnoc();
    fsp.fail(Fault::SendError);

    let err = fsp.read_knob(KNOB_CCM).unwrap_err().message();

    assert!(err.contains("MNOC send error"), "{err}");
}

/// The mailbox can fail after handing the payload over, which is why its
/// status is read a second time.
#[test]
fn an_mnoc_error_after_the_payload_is_reported() {
    let mut fsp = mnoc();
    fsp.fail(Fault::LateError);

    let err = fsp.read_knob(KNOB_CCM).unwrap_err().message();

    assert!(err.contains("MNOC receive error"), "{err}");
}

/// Five seconds each: a mailbox that says nothing is only knowable by
/// the timeout.
#[test]
fn an_mnoc_mailbox_that_does_not_answer_is_reported() {
    for (fault, expected) in [
        (Fault::ReceiveError, "MNOC receive error"),
        (Fault::Silent, "timed out waiting for FSP MNOC response"),
    ] {
        let mut fsp = mnoc();
        fsp.fail(fault);

        let err = fsp.read_knob(KNOB_CCM).unwrap_err().message();

        assert!(err.contains(expected), "{err}");
        assert!(fsp.clock > 5_000_000_000);
    }
}

#[test]
fn an_emem_mailbox_that_does_not_answer_is_reported() {
    let mut fsp = emem();
    fsp.fail(Fault::Silent);

    let err = fsp.read_knob(KNOB_CCM).unwrap_err().message();

    assert!(err.contains("timed out waiting for FSP response"), "{err}");
}

// --- GPUs --------------------------------------------------------------------

fn pci(device: u16) -> PciDev {
    PciDev {
        bdf: BDF.to_string(),
        vendor: 0x10de,
        device,
        path: "/fake".to_string(),
        bar0_len: 16 << 20,
        power_control: None,
        decoding_enabled: false,
    }
}

/// A booted GPU whose registers a model answers.
fn modelled_gpu(devid: u16) -> (Fsp, Gpu) {
    let chip = chip_for(devid).expect("a CC-capable device id");
    let mut firmware = if chip.hopper { emem() } else { mnoc() };
    firmware.regs.insert(chip.boot_complete, BOOT_COMPLETE_OK);
    let gpu = Gpu {
        pci: pci(devid),
        chip,
        c2c: is_c2c(devid),
    };

    (firmware, gpu)
}

fn modelled_switch() -> (Fsp, NvSwitch) {
    let switch = switch_for(0x7000a1).expect("a PPCIE-capable switch");
    let mut firmware = emem();
    firmware.regs.insert(switch.boot_complete, BOOT_COMPLETE_OK);

    (
        firmware,
        NvSwitch {
            pci: pci(0x22a3),
            switch,
        },
    )
}

fn set_cc(firmware: &mut Fsp, gpu: &Gpu, mode: CcMode) -> Result<(), CcError> {
    firmware.run(gpu.set_cc_mode(mode)?)
}

fn set_ppcie(firmware: &mut Fsp, gpu: &Gpu, mode: PpcieMode) -> Result<(), CcError> {
    firmware.run(gpu.set_ppcie_mode(mode)?)
}

#[test]
fn a_gpu_reports_the_cc_mode_it_is_running() {
    for (devid, register, state, expected) in [
        (GH100, CC_STATE_HOPPER, 0x0, CcMode::Off),
        (GH100, CC_STATE_HOPPER, 0x1, CcMode::On),
        (GH100, CC_STATE_HOPPER, 0x3, CcMode::DevTools),
        (GB100, CC_STATE_BLACKWELL, 0x0, CcMode::Off),
        (GB100, CC_STATE_BLACKWELL, 0x1, CcMode::On),
    ] {
        let (mut firmware, gpu) = modelled_gpu(devid);
        firmware.regs.insert(register, state);

        assert_eq!(firmware.run(gpu.query_cc_mode()).unwrap(), expected);
    }
}

/// Devtools without CC is not a mode, and there is no reading of the
/// register that makes it one.
#[test]
fn a_gpu_in_a_cc_state_that_is_not_one_is_reported() {
    let (mut firmware, gpu) = modelled_gpu(GH100);
    firmware.regs.insert(CC_STATE_HOPPER, 0x2);

    let err = firmware.run(gpu.query_cc_mode()).unwrap_err().message();

    assert!(err.contains("invalid CC state"), "{err}");
}

#[test]
fn a_gpu_that_does_not_boot_has_no_mode() {
    let (mut firmware, gpu) = modelled_gpu(GH100);
    firmware.regs.clear();

    let err = firmware.run(gpu.query_cc_mode()).unwrap_err().message();
    assert_eq!(err, "timed out waiting for GPU boot complete");
    assert!(firmware.run(gpu.wait_for_boot()).is_err());
    assert!(firmware.run(gpu.query_ppcie_mode().unwrap()).is_err());
}

#[test]
fn setting_a_cc_mode_writes_the_knobs_it_means() {
    let cases: [(u16, CcMode, &[(u32, u16)]); 4] = [
        (
            GH100,
            CcMode::On,
            &[(KNOB_CCM, 1), (KNOB_CCD, 0), (KNOB_BAR0_DECOUPLER, 2)],
        ),
        (
            GH100,
            CcMode::DevTools,
            &[(KNOB_CCM, 1), (KNOB_CCD, 1), (KNOB_BAR0_DECOUPLER, 0)],
        ),
        (
            GH100,
            CcMode::Off,
            &[(KNOB_CCM, 0), (KNOB_CCD, 0), (KNOB_BAR0_DECOUPLER, 0)],
        ),
        (GB100, CcMode::On, &[(KNOB_CCM, 1), (KNOB_CCD, 0)]),
    ];
    for (devid, mode, expected) in cases {
        let (mut firmware, gpu) = modelled_gpu(devid);

        set_cc(&mut firmware, &gpu, mode).unwrap();

        for (knob, value) in expected {
            assert_eq!(firmware.knob(*knob), Some(*value), "knob {knob:#x}");
        }
    }
}

/// Both PPCIE and the three Hopper knobs that predate CC are mutually
/// exclusive with it in the firmware.
#[test]
fn enabling_cc_on_hopper_clears_what_conflicts_with_it() {
    let (mut firmware, gpu) = modelled_gpu(GH100);
    for knob in [KNOB_2, KNOB_4, KNOB_34, KNOB_PPCIE] {
        firmware.knobs.insert(knob, 1);
    }

    set_cc(&mut firmware, &gpu, CcMode::On).unwrap();

    for knob in [KNOB_2, KNOB_4, KNOB_34, KNOB_PPCIE] {
        assert_eq!(firmware.knob(knob), Some(0), "knob {knob:#x}");
    }
}

#[test]
fn a_mode_that_is_set_already_is_not_written_again() {
    let (mut firmware, gpu) = modelled_gpu(GH100);

    set_cc(&mut firmware, &gpu, CcMode::DevTools).unwrap();
    let written: Vec<(u32, Option<u16>)> = firmware
        .commands
        .drain(..)
        .filter(|(_, w)| w.is_some())
        .collect();
    assert_eq!(written, [(KNOB_CCM, Some(1)), (KNOB_CCD, Some(1))]);

    set_cc(&mut firmware, &gpu, CcMode::DevTools).unwrap();
    assert_eq!(firmware.writes(), 0);
}

/// Firmware without a PPCIE knob has no PPCIE to clear.
#[test]
fn enabling_cc_on_firmware_without_the_ppcie_knob_goes_through() {
    let (mut firmware, gpu) = modelled_gpu(GH100);
    firmware.knobs.remove(&KNOB_PPCIE);

    set_cc(&mut firmware, &gpu, CcMode::On).unwrap();

    assert_eq!(firmware.knob(KNOB_CCM), Some(1));
}

/// Any other failure reading it is one, though: CC would go on with
/// PPCIE left in an unknown state.
#[test]
fn enabling_cc_stops_if_the_ppcie_knob_will_not_read() {
    let (mut firmware, gpu) = modelled_gpu(GH100);
    firmware.fail_knob(KNOB_PPCIE, Fault::Completion(0x5));

    let err = set_cc(&mut firmware, &gpu, CcMode::On)
        .unwrap_err()
        .message();

    assert!(err.contains("completion code 0x5"), "{err}");
    assert_eq!(firmware.knob(KNOB_CCM), Some(0));
}

/// The mode belongs to system firmware on a coherently attached part,
/// so raising it in band is refused before anything is written.
#[test]
fn enabling_cc_on_a_c2c_gpu_is_refused() {
    let (mut firmware, gpu) = modelled_gpu(GH200);
    assert!(gpu.c2c);

    let err = set_cc(&mut firmware, &gpu, CcMode::On)
        .unwrap_err()
        .message();

    assert!(err.contains("not supported on C2C"), "{err}");
    assert_eq!(firmware.register_writes, 0);
}

/// Turning it off there is not raising it, so that still goes through.
#[test]
fn disabling_cc_on_a_c2c_gpu_goes_through() {
    let (mut firmware, gpu) = modelled_gpu(GH200);
    firmware.knobs.insert(KNOB_CCM, 1);

    set_cc(&mut firmware, &gpu, CcMode::Off).unwrap();

    assert_eq!(firmware.knob(KNOB_CCM), Some(0));
}

#[test]
fn a_mode_can_be_set_though_the_boot_scratch_never_says_so() {
    let (mut firmware, gpu) = modelled_gpu(GH100);
    firmware.regs.clear();

    set_cc(&mut firmware, &gpu, CcMode::On).unwrap();

    assert_eq!(firmware.knob(KNOB_CCM), Some(1));
}

/// Nothing has booted, and a command is in flight that nobody answers: both are
/// waited for in vain, and the mode is set all the same.
#[test]
fn a_mode_can_be_set_over_a_channel_that_a_crash_left_behind() {
    let (mut firmware, gpu) = modelled_gpu(GH100);
    firmware.regs.clear();
    firmware.queue_tail = 4;

    set_cc(&mut firmware, &gpu, CcMode::DevTools).unwrap();

    assert!(firmware.clock > 15_000_000_000);
    assert_eq!(firmware.knob(KNOB_CCM), Some(1));
    assert_eq!(firmware.knob(KNOB_CCD), Some(1));
    assert_eq!(firmware.knob(KNOB_BAR0_DECOUPLER), Some(0));
}

#[test]
fn a_hopper_gpu_reports_the_ppcie_mode_it_is_running() {
    for (state, expected) in [(0x0000_0000, PpcieMode::Off), (0x0000_0020, PpcieMode::On)] {
        let (mut firmware, gpu) = modelled_gpu(GH100);
        firmware.regs.insert(PPCIE_STATE_HOPPER, state);

        assert!(gpu.supports_ppcie());
        let mode = firmware.run(gpu.query_ppcie_mode().unwrap()).unwrap();
        assert_eq!(mode, expected);
    }
}

#[test]
fn a_blackwell_gpu_has_no_ppcie_mode_either_way() {
    let (_, gpu) = modelled_gpu(GB100);
    assert!(!gpu.supports_ppcie());

    let Err(query) = gpu.query_ppcie_mode() else {
        panic!("an error")
    };
    let Err(set) = gpu.set_ppcie_mode(PpcieMode::On) else {
        panic!("an error")
    };
    for err in [query.message(), set.message()] {
        assert!(err.contains("does not support PPCIE"), "{err}");
    }
}

#[test]
fn setting_ppcie_on_a_gpu_clears_its_cc_knobs_first() {
    let (mut firmware, gpu) = modelled_gpu(GH100);
    firmware.knobs.insert(KNOB_CCM, 1);

    set_ppcie(&mut firmware, &gpu, PpcieMode::On).unwrap();

    assert_eq!(firmware.knob(KNOB_CCM), Some(0));
    assert_eq!(firmware.knob(KNOB_PPCIE), Some(1));
    assert_eq!(firmware.knob(KNOB_BAR0_DECOUPLER), Some(2));
    let written: Vec<u32> = firmware
        .commands
        .iter()
        .filter(|(_, w)| w.is_some())
        .map(|(knob, _)| *knob)
        .collect();
    assert_eq!(written, [KNOB_CCM, KNOB_BAR0_DECOUPLER, KNOB_PPCIE]);
}

#[test]
fn setting_ppcie_on_firmware_without_the_knob_says_so() {
    let (mut firmware, gpu) = modelled_gpu(GH100);
    firmware.knobs.remove(&KNOB_PPCIE);

    let err = set_ppcie(&mut firmware, &gpu, PpcieMode::On)
        .unwrap_err()
        .message();

    assert!(err.contains("firmware does not support PPCIE"), "{err}");
    assert_eq!(firmware.writes(), 0);
}

#[test]
fn setting_ppcie_reports_a_failure_that_is_not_a_missing_knob() {
    let (mut firmware, gpu) = modelled_gpu(GH100);
    firmware.fail(Fault::Completion(0x5));

    let err = set_ppcie(&mut firmware, &gpu, PpcieMode::On)
        .unwrap_err()
        .message();

    assert_eq!(
        err,
        "0000:65:00.0: set PPCIE: FSP RPC failed with completion code 0x5"
    );
}

#[test]
fn resetting_a_gpu_goes_through_sysfs_and_waits_for_boot() {
    let (mut firmware, gpu) = modelled_gpu(GH100);

    firmware.run(gpu.reset()).unwrap();

    assert_eq!(firmware.reset, "1");

    firmware.regs.clear();
    let err = firmware.run(gpu.reset()).unwrap_err().message();
    assert_eq!(err, "timed out waiting for GPU boot complete");
    firmware.reset_fails = true;
    let err = firmware.run(gpu.reset()).unwrap_err().message();
    assert_eq!(err, "0000:65:00.0: reset via sysfs: denied");
}

// --- Switches ----------------------------------------------------------------

#[test]
fn a_switch_reports_the_ppcie_mode_it_is_running() {
    for (state, expected) in [(0x0000_0000, PpcieMode::Off), (0x0000_0001, PpcieMode::On)] {
        let (mut firmware, switch) = modelled_switch();
        firmware.regs.insert(PPCIE_STATE_SWITCH, state);

        assert_eq!(firmware.run(switch.query_ppcie_mode()).unwrap(), expected);
    }
}

#[test]
fn setting_ppcie_on_a_switch_leaves_the_decoupler_off() {
    let (mut firmware, switch) = modelled_switch();

    firmware.run(switch.set_ppcie_mode(PpcieMode::On)).unwrap();

    assert_eq!(firmware.knob(KNOB_PPCIE), Some(1));
    assert_eq!(firmware.knob(KNOB_BAR0_DECOUPLER), Some(0));
}

#[test]
fn resetting_a_switch_goes_through_sysfs_and_waits_for_boot() {
    let (mut firmware, switch) = modelled_switch();

    firmware.run(switch.reset()).unwrap();
    firmware.run(switch.wait_for_boot()).unwrap();

    assert_eq!(firmware.reset, "1");

    firmware.regs.clear();
    let err = firmware.run(switch.wait_for_boot()).unwrap_err().message();
    assert_eq!(err, "timed out waiting for NVSwitch boot complete");
}
