//! FSP PRC-knob RPC, the in-band interface that owns CC configuration.
//!
//! The FSP (firmware security processor) stores CC settings as persistent
//! "PRC knobs".  Knobs are read and written with single-packet MCTP
//! messages (NVIDIA vendor-defined type) delivered through one of two
//! BAR0 mailboxes:
//!
//! * Hopper: the FSP falcon's EMEM shared memory, channel 2
//! * Blackwell: the FSP MNOC mailbox, port 0

use vstd::prelude::*;

use crate::cc::script::{Cond, Instr, Wait, Way, What};
use crate::number::{hex, push_hex};

pub use crate::cc::rpc::FspRpc;

verus! {

/// PRC knob ids.
pub const KNOB_2: u32 = 2;  // Hopper-only, cleared before enabling CC

pub const KNOB_4: u32 = 4;  // Hopper-only, cleared before enabling CC

pub const KNOB_CCD: u32 = 6;  // CC devtools mode

pub const KNOB_CCM: u32 = 8;  // CC mode

pub const KNOB_BAR0_DECOUPLER: u32 = 10;  // Hopper BAR0 filter

pub const KNOB_34: u32 = 34;  // Hopper-only, cleared before enabling CC

pub const KNOB_PPCIE: u32 = 45;  // protected PCIe, mutually exclusive with CC

/// NVDM (NVIDIA data model) message types.
pub const NVDM_PRC: u32 = 0x13;

pub const NVDM_RESPONSE: u32 = 0x15;

/// What firmware predating a knob answers a read of it with.
pub const INVALID_KNOB: u32 = 0x1e3;

/// MCTP transport header: version 0, endpoint ids 0, tag 0, seq 0,
/// som=1 (bit 31), eom=1 (bit 30): every RPC here fits one packet.
pub const MCTP_HEADER: u32 = 0xc000_0000;

/// A non-zero FSP completion code.
#[derive(Clone, Copy, Debug, PartialEq, Eq, Structural)]
pub struct FspError {
    pub code: u32,
}

impl FspError {
    pub open spec fn text(self) -> Seq<char> {
        "FSP RPC failed with completion code 0x"@ + hex(self.code as int, 1)
    }

    pub fn to_string(&self) -> (r: String)
        ensures
            r@ == self.text(),
    {
        let mut r: String = String::new();
        r.append("FSP RPC failed with completion code 0x");
        push_hex(&mut r, self.code as u64, 1);
        assert(r@ =~= self.text());
        r
    }
}

/// Why an RPC failed.
#[derive(Clone, Copy, Debug, PartialEq, Eq, Structural)]
pub enum RpcFault {
    /// Something did not come about in time.
    TimedOut(What),
    /// The command does not fit the EMEM channel.
    CommandTooLarge,
    /// The queue registers announce more than the EMEM channel holds.
    ResponseTooLarge,
    /// The MNOC mailbox failed, and what its status register read.
    Mnoc(Way, u32),
    /// The MNOC mailbox announces more bytes than it can carry.
    MnocResponseTooLarge(u32),
    /// Less than a response header.
    ResponseTooShort,
    /// Something that is not an NVDM response.
    WrongNvdmType,
    /// An answer to another command.
    WrongCommand,
    /// The firmware refused.
    Completion(FspError),
    /// A knob's read was answered with anything but one dword.
    BadRead(u32),
    /// A knob's write was answered with a payload.
    BadWrite(u32),
    /// Firmware too old for PPCIE.
    NoPpcie,
}

/// A failed RPC.
#[derive(Debug)]
pub struct RpcError {
    pub fault: RpcFault,
    /// The dwords that were refused, if the fault lies in them.
    pub words: Vec<u32>,
}

/// What an RPC comes to: a payload, or a fault and the dwords it lies in.
pub type RpcEnd = Result<Seq<u32>, (RpcFault, Seq<u32>)>;

pub open spec fn rpc_end(r: Result<Vec<u32>, RpcError>) -> RpcEnd {
    match r {
        Ok(payload) => Ok(payload@),
        Err(err) => Err((err.fault, err.words@)),
    }
}

pub fn bare(fault: RpcFault) -> (r: RpcError)
    ensures
        r.fault == fault,
        r.words@ == Seq::<u32>::empty(),
{
    RpcError { fault, words: Vec::new() }
}

pub open spec fn invalid_knob(fault: RpcFault) -> bool {
    fault == RpcFault::Completion(FspError { code: INVALID_KNOB })
}

/// Firmware predating a knob answers knob reads with this code.
pub fn is_invalid_knob(err: &RpcError) -> (r: bool)
    ensures
        r == invalid_knob(err.fault),
{
    match err.fault {
        RpcFault::Completion(fsp) => fsp.code == INVALID_KNOB,
        _ => false,
    }
}

// --- Framing -----------------------------------------------------------------

/// MCTP message header dword: type 0x7e (vendor via PCI), vendor 0x10de,
/// NVDM type in the top byte.
pub open spec fn msg_header(nvdm_type: u32) -> u32 {
    0x0010_de7e | nvdm_type << 24
}

pub open spec fn packet(nvdm_type: u32, payload: Seq<u32>) -> Seq<u32> {
    seq![MCTP_HEADER, msg_header(nvdm_type)] + payload
}

pub fn mctp_msg_header(nvdm_type: u32) -> (r: u32)
    ensures
        r == msg_header(nvdm_type),
{
    0x0010_de7e | nvdm_type << 24
}

pub fn mctp_packet(nvdm_type: u32, payload: &[u32]) -> (r: Vec<u32>)
    ensures
        r@ == packet(nvdm_type, payload@),
{
    let mut r: Vec<u32> = Vec::new();
    r.push(MCTP_HEADER);
    r.push(mctp_msg_header(nvdm_type));
    let mut i: usize = 0;
    while i < payload.len()
        invariant
            i <= payload.len(),
            r@ =~= packet(nvdm_type, payload@.take(i as int)),
        decreases payload.len() - i,
    {
        r.push(payload[i]);
        i = i + 1;
    }
    assert(payload@.take(i as int) =~= payload@);
    r
}

/// The command that reads a knob.
pub open spec fn read_command(knob: u32) -> Seq<u32> {
    seq![0xc | 0x2u32 << 8 | knob << 16]
}

/// The command that writes a knob.
pub open spec fn write_command(knob: u32, value: u16) -> Seq<u32> {
    seq![0xd | 0x2u32 << 8 | knob << 16, value as u32]
}

/// The payload of a response, if it is a good one.
/// [mctp hdr, msg hdr, seq, request nvdm type, completion, payload...]
pub open spec fn response_payload(response: Seq<u32>) -> RpcEnd {
    if response.len() < 5 {
        Err((RpcFault::ResponseTooShort, response))
    } else if response[1] >> 24 != NVDM_RESPONSE {
        Err((RpcFault::WrongNvdmType, response))
    } else if response[3] != NVDM_PRC {
        Err((RpcFault::WrongCommand, response))
    } else if response[4] != 0 {
        Err((RpcFault::Completion(FspError { code: response[4] }), seq![]))
    } else {
        Ok(response.skip(5))
    }
}

pub fn check_response(response: Vec<u32>) -> (r: Result<Vec<u32>, RpcError>)
    ensures
        rpc_end(r) == response_payload(response@),
{
    if response.len() < 5 {
        return Err(RpcError { fault: RpcFault::ResponseTooShort, words: response });
    }
    if response[1] >> 24 != NVDM_RESPONSE {
        return Err(RpcError { fault: RpcFault::WrongNvdmType, words: response });
    }
    if response[3] != NVDM_PRC {
        return Err(RpcError { fault: RpcFault::WrongCommand, words: response });
    }
    if response[4] != 0 {
        return Err(bare(RpcFault::Completion(FspError { code: response[4] })));
    }
    let mut payload: Vec<u32> = Vec::new();
    let mut i: usize = 5;
    while i < response.len()
        invariant
            5 <= i <= response.len(),
            payload@ =~= response@.subrange(5, i as int),
        decreases response.len() - i,
    {
        payload.push(response[i]);
        i = i + 1;
    }
    assert(payload@ =~= response@.skip(5));
    Ok(payload)
}

/// The knob's value in the payload of a read: the low 16 bits of one dword,
/// the upper half not being zero-initialized.
pub open spec fn read_value(knob: u32, end: RpcEnd) -> Result<u16, (RpcFault, Seq<u32>)> {
    match end {
        Ok(payload) => if payload.len() == 1 {
            Ok(payload[0] as u16)
        } else {
            Err((RpcFault::BadRead(knob), payload))
        },
        Err(err) => Err(err),
    }
}

/// Nothing is in the payload of a write.
pub open spec fn written(knob: u32, end: RpcEnd) -> Result<(), (RpcFault, Seq<u32>)> {
    match end {
        Ok(payload) => if payload.len() == 0 {
            Ok(())
        } else {
            Err((RpcFault::BadWrite(knob), payload))
        },
        Err(err) => Err(err),
    }
}

pub fn check_read(knob: u32, end: Result<Vec<u32>, RpcError>) -> (r: Result<u16, RpcError>)
    ensures
        match r {
            Ok(value) => read_value(knob, rpc_end(end)) == Ok::<u16, (RpcFault, Seq<u32>)>(value),
            Err(err) => read_value(knob, rpc_end(end)) == Err::<u16, (RpcFault, Seq<u32>)>(
                (err.fault, err.words@),
            ),
        },
{
    match end {
        Ok(payload) => if payload.len() == 1 {
            Ok(#[verifier::truncate] (payload[0] as u16))
        } else {
            Err(RpcError { fault: RpcFault::BadRead(knob), words: payload })
        },
        Err(err) => Err(err),
    }
}

pub fn check_write(knob: u32, end: Result<Vec<u32>, RpcError>) -> (r: Result<(), RpcError>)
    ensures
        match r {
            Ok(()) => written(knob, rpc_end(end)) == Ok::<(), (RpcFault, Seq<u32>)>(()),
            Err(err) => written(knob, rpc_end(end)) == Err::<(), (RpcFault, Seq<u32>)>(
                (err.fault, err.words@),
            ),
        },
{
    match end {
        Ok(payload) => if payload.len() == 0 {
            Ok(())
        } else {
            Err(RpcError { fault: RpcFault::BadWrite(knob), words: payload })
        },
        Err(err) => Err(err),
    }
}

// --- Hopper: FSP falcon EMEM, channel 2 --------------------------------------
//
// A command is written into the channel's EMEM window and announced by the
// queue head/tail registers; the response arrives in the same window,
// announced by the message queue registers.

pub const EMEM_CHANNEL: u32 = 2;

pub const EMEM_BASE: u32 = EMEM_CHANNEL * 1024;  // byte offset inside EMEM

pub const EMEMC: u32 = 0x8f2ac0 + EMEM_CHANNEL * 8;  // port control: offset + autoinc

pub const EMEMD: u32 = EMEMC + 4;  // port data window

pub const QUEUE_HEAD: u32 = 0x8f2c00 + EMEM_CHANNEL * 8;  // writing head is the doorbell

pub const QUEUE_TAIL: u32 = QUEUE_HEAD + 4;

pub const MSGQ_HEAD: u32 = 0x8f2c80 + EMEM_CHANNEL * 8;

pub const MSGQ_TAIL: u32 = MSGQ_HEAD + 4;

pub const EMEMC_AINCW: u32 = 1 << 24;

pub const EMEMC_AINCR: u32 = 1 << 25;

pub const SECOND: u64 = 1_000_000_000;

pub open spec fn command_queue_empty() -> Wait {
    Wait {
        what: What::CommandQueue,
        cond: Cond::Same(QUEUE_HEAD, QUEUE_TAIL),
        timeout: (5 * SECOND) as u64,
    }
}

pub open spec fn emem_response() -> Wait {
    Wait {
        what: What::Response,
        cond: Cond::Differ(MSGQ_HEAD, MSGQ_TAIL),
        timeout: (5 * SECOND) as u64,
    }
}

pub open spec fn stale_response() -> Wait {
    Wait {
        what: What::StaleResponse,
        cond: Cond::Differ(MSGQ_HEAD, MSGQ_TAIL),
        timeout: (5 * SECOND) as u64,
    }
}

/// Points the data window at the start of the channel.
pub open spec fn emem_rewind() -> Instr {
    Instr::Write(EMEMC, EMEM_BASE | EMEMC_AINCW | EMEMC_AINCR)
}

pub open spec fn write_all(register: u32, data: Seq<u32>) -> Seq<Instr> {
    Seq::new(data.len(), |i: int| Instr::Write(register, data[i]))
}

pub open spec fn read_times(register: u32, n: int) -> Seq<Instr> {
    Seq::new(n as nat, |i: int| Instr::Read(register))
}

/// Sending a command: once the queue is empty, the command goes into the
/// window, and writing tail and then head announces it.
pub open spec fn emem_send_code(data: Seq<u32>) -> Seq<Instr> {
    seq![Instr::Await(command_queue_empty()), emem_rewind()] + write_all(EMEMD, data) + seq![
        Instr::Write(QUEUE_TAIL, (EMEM_BASE + (data.len() - 1) * 4) as u32),
        Instr::Write(QUEUE_HEAD, EMEM_BASE),
    ]
}

/// Waiting for a response, and reading where it lies.
pub open spec fn emem_receive_code() -> Seq<Instr> {
    seq![
        Instr::Await(emem_response()),
        Instr::Read(MSGQ_HEAD),
        Instr::Read(MSGQ_TAIL),
    ]
}

/// The dwords that head and tail announce, both included.
pub open spec fn emem_dwords(head: u32, tail: u32) -> int {
    (if tail >= head {
        tail - head
    } else {
        tail - head + 0x1_0000_0000
    }) / 4 + 1
}

/// Fetching a response: the window is read out, and writing the tail
/// acknowledges it.
pub open spec fn emem_fetch_code(head: u32, tail: u32) -> Seq<Instr> {
    seq![emem_rewind()] + read_times(EMEMD, emem_dwords(head, tail)) + seq![
        Instr::Write(MSGQ_TAIL, head),
    ]
}

fn push_writes(code: &mut Vec<Instr>, register: u32, data: &[u32])
    ensures
        final(code)@ == old(code)@ + write_all(register, data@),
{
    let mut i: usize = 0;
    while i < data.len()
        invariant
            i <= data.len(),
            code@ =~= old(code)@ + write_all(register, data@.take(i as int)),
        decreases data.len() - i,
    {
        code.push(Instr::Write(register, data[i]));
        i = i + 1;
    }
    assert(data@.take(i as int) =~= data@);
}

fn push_reads(code: &mut Vec<Instr>, register: u32, n: u32)
    ensures
        final(code)@ == old(code)@ + read_times(register, n as int),
{
    let mut i: u32 = 0;
    while i < n
        invariant
            i <= n,
            code@ =~= old(code)@ + read_times(register, i as int),
        decreases n - i,
    {
        code.push(Instr::Read(register));
        i = i + 1;
    }
}

pub fn emem_send(data: &[u32]) -> (r: Result<Vec<Instr>, RpcFault>)
    requires
        data.len() > 0,
    ensures
        match r {
            Ok(code) => data.len() <= 256 && code@ == emem_send_code(data@),
            Err(fault) => data.len() > 256 && fault == RpcFault::CommandTooLarge,
        },
{
    if data.len() > 256 {
        return Err(RpcFault::CommandTooLarge);
    }
    let mut code: Vec<Instr> = Vec::new();
    code.push(
        Instr::Await(
            Wait {
                what: What::CommandQueue,
                cond: Cond::Same(QUEUE_HEAD, QUEUE_TAIL),
                timeout: 5 * SECOND,
            },
        ),
    );
    code.push(Instr::Write(EMEMC, EMEM_BASE | EMEMC_AINCW | EMEMC_AINCR));
    push_writes(&mut code, EMEMD, data);
    code.push(Instr::Write(QUEUE_TAIL, EMEM_BASE + (data.len() as u32 - 1) * 4));
    code.push(Instr::Write(QUEUE_HEAD, EMEM_BASE));
    assert(code@ =~= emem_send_code(data@));
    Ok(code)
}

pub fn emem_receive(code: &mut Vec<Instr>)
    ensures
        final(code)@ == old(code)@ + emem_receive_code(),
{
    code.push(
        Instr::Await(
            Wait {
                what: What::Response,
                cond: Cond::Differ(MSGQ_HEAD, MSGQ_TAIL),
                timeout: 5 * SECOND,
            },
        ),
    );
    code.push(Instr::Read(MSGQ_HEAD));
    code.push(Instr::Read(MSGQ_TAIL));
    assert(code@ =~= old(code)@ + emem_receive_code());
}

pub fn emem_fetch(head: u32, tail: u32) -> (r: Result<Vec<Instr>, RpcFault>)
    ensures
        match r {
            Ok(code) => emem_dwords(head, tail) <= 256 && code@ == emem_fetch_code(head, tail),
            Err(fault) => emem_dwords(head, tail) > 256 && fault == RpcFault::ResponseTooLarge,
        },
{
    let dwords: u32 = tail.wrapping_sub(head) / 4 + 1;
    assert(dwords == emem_dwords(head, tail));
    if dwords > 256 {
        return Err(RpcFault::ResponseTooLarge);
    }
    let mut code: Vec<Instr> = Vec::new();
    code.push(Instr::Write(EMEMC, EMEM_BASE | EMEMC_AINCW | EMEMC_AINCR));
    push_reads(&mut code, EMEMD, dwords);
    code.push(Instr::Write(MSGQ_TAIL, head));
    assert(code@ =~= emem_fetch_code(head, tail));
    Ok(code)
}

// --- Blackwell: FSP MNOC mailbox, port 0 -------------------------------------
//
// Two mailbox register pairs: we push commands through the "receive"
// mailbox (info + data) and pull responses from the "send" mailbox.

pub const MNOC_INFO_SEND: u32 = 0x8f1e00 + 0x104;

pub const MNOC_RDATA_SEND: u32 = MNOC_INFO_SEND + 4;

pub const MNOC_INFO_RECV: u32 = 0x8f1e00 + 0x184;

pub const MNOC_WDATA_RECV: u32 = MNOC_INFO_RECV + 4;

pub const MNOC_SIZE_MASK: u32 = 0xfffff;

pub const MNOC_NEW_MSG: u32 = 1 << 20;

pub const MNOC_READY: u32 = 1 << 24;

pub const MNOC_ERROR: u32 = 1 << 25;

pub const MNOC_CREDITS: u32 = 1 << 26;

pub open spec fn mnoc_ready() -> Wait {
    Wait {
        what: What::MnocReady,
        cond: Cond::AnySet(MNOC_INFO_RECV, MNOC_READY),
        timeout: (5 * SECOND) as u64,
    }
}

pub open spec fn mnoc_credits() -> Wait {
    Wait {
        what: What::MnocCredits,
        cond: Cond::AnySet(MNOC_INFO_RECV, MNOC_CREDITS),
        timeout: SECOND,
    }
}

pub open spec fn mnoc_response() -> Wait {
    Wait {
        what: What::MnocResponse,
        cond: Cond::AnySet(MNOC_INFO_SEND, MNOC_READY),
        timeout: (5 * SECOND) as u64,
    }
}

/// The dwords of a command, waiting for credits before every sixteenth:
/// they are granted in 64-byte units.
pub open spec fn mnoc_words(data: Seq<u32>) -> Seq<Instr>
    decreases data.len(),
{
    if data.len() == 0 {
        seq![]
    } else {
        let before = mnoc_words(data.drop_last());
        let write = Instr::Write(MNOC_WDATA_RECV, data.last());
        if (data.len() - 1) % 16 == 0 {
            before.push(Instr::Await(mnoc_credits())).push(write)
        } else {
            before.push(write)
        }
    }
}

/// Sending a command: once the mailbox is ready, its size is announced, its
/// dwords follow, and the mailbox must not have failed.
pub open spec fn mnoc_send_code(data: Seq<u32>) -> Seq<Instr> {
    seq![
        Instr::Await(mnoc_ready()),
        Instr::Write(MNOC_INFO_RECV, (data.len() * 4) as u32 | MNOC_NEW_MSG),
    ] + mnoc_words(data) + seq![Instr::Clear(MNOC_INFO_RECV, MNOC_ERROR, Way::Send)]
}

/// Waiting for a response, and reading its size.
pub open spec fn mnoc_receive_code() -> Seq<Instr> {
    seq![Instr::Await(mnoc_response()), Instr::Read(MNOC_INFO_SEND)]
}

/// Fetching a response of that size; the mailbox can still fail after handing
/// it over.
pub open spec fn mnoc_fetch_code(info: u32) -> Seq<Instr> {
    read_times(MNOC_RDATA_SEND, ((info & MNOC_SIZE_MASK) / 4) as int) + seq![
        Instr::Clear(MNOC_INFO_SEND, MNOC_ERROR, Way::Receive),
    ]
}

pub fn mnoc_send(data: &[u32]) -> (code: Vec<Instr>)
    requires
        data.len() * 4 <= u32::MAX,
    ensures
        code@ == mnoc_send_code(data@),
{
    let mut code: Vec<Instr> = Vec::new();
    code.push(
        Instr::Await(
            Wait {
                what: What::MnocReady,
                cond: Cond::AnySet(MNOC_INFO_RECV, MNOC_READY),
                timeout: 5 * SECOND,
            },
        ),
    );
    code.push(Instr::Write(MNOC_INFO_RECV, (data.len() as u32 * 4) | MNOC_NEW_MSG));
    let ghost start = code@;
    let mut i: usize = 0;
    while i < data.len()
        invariant
            i <= data.len(),
            code@ =~= start + mnoc_words(data@.take(i as int)),
        decreases data.len() - i,
    {
        assert(data@.take(i + 1).drop_last() =~= data@.take(i as int));
        if i % 16 == 0 {
            code.push(
                Instr::Await(
                    Wait {
                        what: What::MnocCredits,
                        cond: Cond::AnySet(MNOC_INFO_RECV, MNOC_CREDITS),
                        timeout: SECOND,
                    },
                ),
            );
        }
        code.push(Instr::Write(MNOC_WDATA_RECV, data[i]));
        i = i + 1;
    }
    assert(data@.take(i as int) =~= data@);
    code.push(Instr::Clear(MNOC_INFO_RECV, MNOC_ERROR, Way::Send));
    assert(code@ =~= mnoc_send_code(data@));
    code
}

pub fn mnoc_receive(code: &mut Vec<Instr>)
    ensures
        final(code)@ == old(code)@ + mnoc_receive_code(),
{
    code.push(
        Instr::Await(
            Wait {
                what: What::MnocResponse,
                cond: Cond::AnySet(MNOC_INFO_SEND, MNOC_READY),
                timeout: 5 * SECOND,
            },
        ),
    );
    code.push(Instr::Read(MNOC_INFO_SEND));
    assert(code@ =~= old(code)@ + mnoc_receive_code());
}

/// An inaccessible BAR0 reads all-ones, which passes for a response and asks
/// for a megabyte here.
pub fn mnoc_fetch(info: u32) -> (r: Result<Vec<Instr>, RpcFault>)
    ensures
        match r {
            Ok(code) => info & MNOC_SIZE_MASK <= 1024 && code@ == mnoc_fetch_code(info),
            Err(fault) => info & MNOC_SIZE_MASK > 1024 && fault == RpcFault::MnocResponseTooLarge(
                info & MNOC_SIZE_MASK,
            ),
        },
{
    let bytes: u32 = info & MNOC_SIZE_MASK;
    if bytes > 1024 {
        return Err(RpcFault::MnocResponseTooLarge(bytes));
    }
    let mut code: Vec<Instr> = Vec::new();
    push_reads(&mut code, MNOC_RDATA_SEND, bytes / 4);
    code.push(Instr::Clear(MNOC_INFO_SEND, MNOC_ERROR, Way::Receive));
    assert(code@ =~= mnoc_fetch_code(info));
    Ok(code)
}

// --- What goes over the wire -------------------------------------------------

/// A message is one packet: start and end in the top two bits of its first
/// dword, the vendor's message type and number in the second with the NVDM type
/// above them, and the payload as it is. A command names its knob in the upper
/// half of the first dword of its payload.
pub proof fn messages_are_framed_so(
    nvdm_type: u32,
    payload: Seq<u32>,
    knob: u32,
    value: u16,
)
    requires
        nvdm_type < 0x100,
        knob < 0x1_0000,
    ensures
        packet(nvdm_type, payload) == seq![
            0xc000_0000u32,
            (0x10_de7e + nvdm_type * 0x100_0000) as u32,
        ] + payload,
        read_command(knob) == seq![(0x20c + knob * 0x1_0000) as u32],
        write_command(knob, value) == seq![(0x20d + knob * 0x1_0000) as u32, value as u32],
        NVDM_PRC == 0x13,
        NVDM_RESPONSE == 0x15,
        INVALID_KNOB == 0x1e3,
{
    assert(0x0010_de7e | nvdm_type << 24 == 0x10_de7e + nvdm_type * 0x100_0000) by (bit_vector)
        requires
            nvdm_type < 0x100,
    ;
    assert((0xc | 0x2u32 << 8 | knob << 16) == 0x20c + knob * 0x1_0000 && (0xd | 0x2u32 << 8 | knob
        << 16) == 0x20d + knob * 0x1_0000) by (bit_vector)
        requires
            knob < 0x1_0000,
    ;
}

/// A response is accepted exactly where it has five dwords at least, is of type
/// 15 in the top byte of its second, answers a message of type 13 and completed
/// with 0; its payload is then all that follows. What is refused is told by the
/// first of these that does not hold.
pub proof fn a_response_is_accepted(response: Seq<u32>)
    ensures
        response_payload(response) is Ok <==> response.len() >= 5 && response[1] / 0x100_0000
            == 0x15 && response[3] == 0x13 && response[4] == 0,
        response_payload(response) matches Ok(payload) ==> response == response.take(5) + payload
            && payload.len() == response.len() - 5,
        response.len() < 5 <==> response_payload(response) == Err::<
            Seq<u32>,
            (RpcFault, Seq<u32>),
        >((RpcFault::ResponseTooShort, response)),
        response.len() >= 5 && response[1] / 0x100_0000 != 0x15 ==> response_payload(response)
            == Err::<Seq<u32>, (RpcFault, Seq<u32>)>((RpcFault::WrongNvdmType, response)),
        response.len() >= 5 && response[1] / 0x100_0000 == 0x15 && response[3] != 0x13
            ==> response_payload(response) == Err::<Seq<u32>, (RpcFault, Seq<u32>)>(
            (RpcFault::WrongCommand, response),
        ),
        response.len() >= 5 && response[1] / 0x100_0000 == 0x15 && response[3] == 0x13
            && response[4] != 0 ==> response_payload(response) == Err::<
            Seq<u32>,
            (RpcFault, Seq<u32>),
        >((RpcFault::Completion(FspError { code: response[4] }), seq![])),
{
    if response.len() >= 5 {
        let word = response[1];
        assert(word >> 24 == word / 0x100_0000) by (bit_vector);
        assert(response =~= response.take(5) + response.skip(5));
    }
}

/// A knob that was read is the low half of the one dword that came back, and a
/// knob that was written is answered with none; anything else is refused with
/// what came back, and a fault is handed on.
pub proof fn an_answer_is_one_dword_or_none(
    knob: u32,
    payload: Seq<u32>,
    fault: (RpcFault, Seq<u32>),
)
    ensures
        payload.len() == 1 ==> read_value(knob, Ok(payload)) == Ok::<u16, (RpcFault, Seq<u32>)>(
            (payload[0] % 0x1_0000) as u16,
        ),
        payload.len() != 1 ==> read_value(knob, Ok(payload)) == Err::<u16, (RpcFault, Seq<u32>)>(
            (RpcFault::BadRead(knob), payload),
        ),
        payload.len() == 0 ==> written(knob, Ok(payload)) == Ok::<(), (RpcFault, Seq<u32>)>(()),
        payload.len() != 0 ==> written(knob, Ok(payload)) == Err::<(), (RpcFault, Seq<u32>)>(
            (RpcFault::BadWrite(knob), payload),
        ),
        read_value(knob, Err(fault)) == Err::<u16, (RpcFault, Seq<u32>)>(fault),
        written(knob, Err(fault)) == Err::<(), (RpcFault, Seq<u32>)>(fault),
        invalid_knob(fault.0) <==> fault.0 == RpcFault::Completion(FspError { code: 0x1e3 }),
{
    if payload.len() == 1 {
        let word = payload[0];
        assert(word as u16 == (word % 0x1_0000) as u16) by (bit_vector);
    }
}

/// Where the registers of the EMEM channel and of the MNOC mailbox are, what
/// their bits mean, and how long each is waited for.
pub proof fn the_mailboxes_are_here()
    ensures
        EMEM_BASE == 2048,
        EMEMC == 0x8f2ad0,
        EMEMD == 0x8f2ad4,
        QUEUE_HEAD == 0x8f2c10,
        QUEUE_TAIL == 0x8f2c14,
        MSGQ_HEAD == 0x8f2c90,
        MSGQ_TAIL == 0x8f2c94,
        emem_rewind() == Instr::Write(0x8f2ad0, 0x300_0800),
        MNOC_INFO_SEND == 0x8f1f04,
        MNOC_RDATA_SEND == 0x8f1f08,
        MNOC_INFO_RECV == 0x8f1f84,
        MNOC_WDATA_RECV == 0x8f1f88,
        MNOC_SIZE_MASK == 0xf_ffff,
        MNOC_NEW_MSG == 0x10_0000,
        MNOC_READY == 0x100_0000,
        MNOC_ERROR == 0x200_0000,
        MNOC_CREDITS == 0x400_0000,
        command_queue_empty() == (Wait {
            what: What::CommandQueue,
            cond: Cond::Same(0x8f2c10, 0x8f2c14),
            timeout: 5_000_000_000,
        }),
        emem_response() == (Wait {
            what: What::Response,
            cond: Cond::Differ(0x8f2c90, 0x8f2c94),
            timeout: 5_000_000_000,
        }),
        stale_response() == (Wait {
            what: What::StaleResponse,
            cond: Cond::Differ(0x8f2c90, 0x8f2c94),
            timeout: 5_000_000_000,
        }),
        mnoc_ready() == (Wait {
            what: What::MnocReady,
            cond: Cond::AnySet(0x8f1f84, 0x100_0000),
            timeout: 5_000_000_000,
        }),
        mnoc_credits() == (Wait {
            what: What::MnocCredits,
            cond: Cond::AnySet(0x8f1f84, 0x400_0000),
            timeout: 1_000_000_000,
        }),
        mnoc_response() == (Wait {
            what: What::MnocResponse,
            cond: Cond::AnySet(0x8f1f04, 0x100_0000),
            timeout: 5_000_000_000,
        }),
{
    assert(1u32 << 24 == 0x100_0000 && 1u32 << 25 == 0x200_0000 && 1u32 << 20 == 0x10_0000 && 1u32
        << 26 == 0x400_0000 && 2048u32 | 0x100_0000 | 0x200_0000 == 0x300_0800) by (bit_vector);
}

/// A response that lies from `head` on with `n` dwords is announced by a tail at
/// its last dword, and read out whole.
pub proof fn head_and_tail_include_each_other(head: u32, n: u32)
    requires
        n >= 1,
        head + (n - 1) * 4 <= u32::MAX,
    ensures
        emem_dwords(head, (head + (n - 1) * 4) as u32) == n,
{
}

/// A command goes into the window as it is, between the rewinding of the window
/// and the two writes that announce it: first where it ends, then where it
/// starts.
pub proof fn a_command_is_put_into_the_window(data: Seq<u32>, i: int)
    requires
        0 < data.len() <= 256,
        0 <= i < data.len(),
    ensures
        ({
            let code = emem_send_code(data);
            &&& code.len() == data.len() + 4
            &&& code[0] == Instr::Await(command_queue_empty())
            &&& code[1] == Instr::Write(0x8f2ad0, 0x300_0800)
            &&& code[2 + i] == Instr::Write(0x8f2ad4, data[i])
            &&& code[data.len() as int + 2] == Instr::Write(
                0x8f2c14,
                (2048 + (data.len() - 1) * 4) as u32,
            )
            &&& code[data.len() as int + 3] == Instr::Write(0x8f2c10, 2048)
        }),
{
    the_mailboxes_are_here();
}

/// A response is read dword by dword after the window has been rewound, and
/// acknowledged by the tail catching up with the head.
pub proof fn a_response_is_read_from_the_window(head: u32, n: u32, i: int)
    requires
        1 <= n <= 256,
        head + (n - 1) * 4 <= u32::MAX,
        0 <= i < n,
    ensures
        ({
            let code = emem_fetch_code(head, (head + (n - 1) * 4) as u32);
            &&& code.len() == n + 2
            &&& code[0] == Instr::Write(0x8f2ad0, 0x300_0800)
            &&& code[1 + i] == Instr::Read(0x8f2ad4)
            &&& code[n + 1] == Instr::Write(0x8f2c94, head)
        }),
{
    the_mailboxes_are_here();
    head_and_tail_include_each_other(head, n);
}

proof fn lemma_mnoc_words_at(data: Seq<u32>)
    ensures
        mnoc_words(data).len() == data.len() + (data.len() + 15) / 16,
        forall|i: int|
            0 <= i < data.len() ==> mnoc_words(data)[i + i / 16 + 1] == Instr::Write(
                MNOC_WDATA_RECV,
                #[trigger] data[i],
            ),
        forall|j: int|
            0 <= j && 16 * j < data.len() ==> #[trigger] mnoc_words(data)[17 * j] == Instr::Await(
                mnoc_credits(),
            ),
    decreases data.len(),
{
    if data.len() > 0 {
        let front = data.drop_last();
        let before = mnoc_words(front);
        let all = mnoc_words(data);
        let n = data.len() - 1;
        lemma_mnoc_words_at(front);
        assert forall|i: int| 0 <= i < data.len() implies all[i + i / 16 + 1] == Instr::Write(
            MNOC_WDATA_RECV,
            #[trigger] data[i],
        ) by {
            if i < n {
                assert(front[i] == data[i]);
                assert(i + i / 16 + 1 < before.len());
            }
        }
        assert forall|j: int| 0 <= j && 16 * j < data.len() implies #[trigger] all[17 * j]
            == Instr::Await(mnoc_credits()) by {
            if 16 * j < n {
                assert(before[17 * j] == Instr::Await(mnoc_credits()));
            } else {
                assert(n == 16 * j);
            }
        }
    }
}

/// A command goes through the MNOC mailbox dword by dword, its size announced
/// before and a failure looked for after; before every sixteenth dword the
/// mailbox must grant credits.
pub proof fn a_command_is_put_into_the_mailbox(data: Seq<u32>, i: int)
    requires
        0 <= i < data.len(),
        data.len() * 4 <= 0xf_ffff,
    ensures
        ({
            let code = mnoc_send_code(data);
            let words = data.len() + (data.len() + 15) / 16;
            &&& code.len() == words + 3
            &&& code[0] == Instr::Await(mnoc_ready())
            &&& code[1] == Instr::Write(0x8f1f84, (data.len() * 4 + 0x10_0000) as u32)
            &&& code[2 + i + i / 16 + 1] == Instr::Write(0x8f1f88, data[i])
            &&& i % 16 == 0 ==> code[2 + i + i / 16] == Instr::Await(mnoc_credits())
            &&& code[words as int + 2] == Instr::Clear(0x8f1f84, 0x200_0000, Way::Send)
        }),
{
    the_mailboxes_are_here();
    lemma_mnoc_words_at(data);
    let bytes = (data.len() * 4) as u32;
    assert(bytes | 0x10_0000 == bytes + 0x10_0000) by (bit_vector)
        requires
            bytes <= 0xf_ffff,
    ;
    if i % 16 == 0 {
        let j = i / 16;
        assert(mnoc_words(data)[17 * j] == Instr::Await(mnoc_credits()));
    }
    assert(mnoc_words(data)[i + i / 16 + 1] == Instr::Write(MNOC_WDATA_RECV, data[i]));
}

/// A response is read from the MNOC mailbox dword by dword, as many as the low
/// twenty bits of its info register announce in bytes.
pub proof fn a_response_is_read_from_the_mailbox(info: u32, i: int)
    requires
        info % 0x10_0000 <= 1024,
        0 <= i < (info % 0x10_0000) / 4,
    ensures
        ({
            let code = mnoc_fetch_code(info);
            &&& code.len() == (info % 0x10_0000) / 4 + 1
            &&& code[i] == Instr::Read(0x8f1f08)
            &&& code.last() == Instr::Clear(0x8f1f04, 0x200_0000, Way::Receive)
        }),
{
    the_mailboxes_are_here();
    assert(info & 0xf_ffff == info % 0x10_0000) by (bit_vector);
}

} // verus!
