use pcilibs_rs::cc::chip::{chips, switches, C2C_DEVIDS};
use pcilibs_rs::cc::fsp::{
    check_read, check_response, check_write, emem_fetch, emem_send, is_invalid_knob,
    mctp_msg_header, mctp_packet, mnoc_fetch, mnoc_send, FspError, RpcError, RpcFault, EMEMC,
    EMEM_BASE, KNOB_2, KNOB_34, KNOB_4, KNOB_BAR0_DECOUPLER, KNOB_CCD, KNOB_CCM, KNOB_PPCIE,
    MCTP_HEADER, MNOC_ERROR, NVDM_PRC, NVDM_RESPONSE, QUEUE_HEAD, QUEUE_TAIL,
};
use pcilibs_rs::cc::job::{PPCIE_STATE_HOPPER_BIT, PPCIE_STATE_SWITCH_BIT};
use pcilibs_rs::cc::mode::{cc_mode_in, cc_plan, ppcie_knob_plan, ppcie_plan, ppcie_state};
use pcilibs_rs::cc::rpc::KnobOp;
use pcilibs_rs::cc::script::{Instr, Way, What};
use pcilibs_rs::cc::{
    chip_for, is_c2c, switch_for, CcError, CcMode, DeviceFault, PpcieMode,
};

const GH100: u16 = 0x2330;
const GH200: u16 = 0x2342;

// --- Chips -------------------------------------------------------------------

#[test]
fn chip_lookup() {
    assert_eq!(chip_for(0x2330).unwrap().name, "GH100"); // H100 SXM
    assert!(chip_for(0x2330).unwrap().hopper);
    assert_eq!(chip_for(0x2901).unwrap().name, "GB100");
    assert!(!chip_for(0x2901).unwrap().hopper);
    assert_eq!(chip_for(0x2b85).unwrap().name, "GB202");
    assert_eq!(chip_for(0x2b85).unwrap().boot_complete, 0xad00bc);
    assert!(chip_for(0x20b0).is_none()); // A100: no CC
}

#[test]
fn every_row_is_found_at_both_its_ends() {
    for row in chips() {
        assert_eq!(chip_for(row.devid.0).unwrap().name, row.name);
        assert_eq!(chip_for(row.devid.1).unwrap().name, row.name);
    }
    assert!(chip_for(0x22ef).is_none());
    assert!(chip_for(0x3280).is_none());
}

#[test]
fn c2c_blocks_enable_only() {
    assert!(C2C_DEVIDS.contains(&0x2342)); // GH200
    assert_eq!(chip_for(0x2342).unwrap().name, "GH100");
}

/// 0x3041, 0x307e and 0x30ff are coherent too; they are absent because no row
/// of the chips covers them, and this is what keeps that honest.
#[test]
fn every_c2c_id_is_a_known_chip() {
    for devid in C2C_DEVIDS {
        assert!(chip_for(devid).is_some(), "{devid:#06x} has no chip row");
    }
}

#[test]
fn c2c_is_the_coherently_attached_parts() {
    assert!(is_c2c(GH200));
    assert!(!is_c2c(GH100));
}

#[test]
fn switch_lookup_is_laguna_plus_only() {
    assert_eq!(switch_for(0x7000a1).unwrap().name, "NVSwitch_gen3");
    assert_eq!(switch_for(0x7000a1).unwrap().boot_complete, 0x660bc);
    assert!(switch_for(0x6000a1).is_none(), "LimeRock has no FSP");
}

#[test]
fn ppcie_is_hopper_only() {
    for (devid, expected) in [(0x2330, true), (0x2901, false), (0x2b85, false)] {
        assert_eq!(chip_for(devid).unwrap().hopper, expected);
    }
}

// --- Modes -------------------------------------------------------------------

#[test]
fn cc_mode_roundtrip() {
    for mode in [CcMode::Off, CcMode::On, CcMode::DevTools] {
        assert_eq!(mode.to_string().parse::<CcMode>().unwrap(), mode);
    }
    assert!("auto".parse::<CcMode>().is_err());
}

#[test]
fn ppcie_mode_roundtrip() {
    for mode in [PpcieMode::Off, PpcieMode::On] {
        assert_eq!(mode.to_string().parse::<PpcieMode>().unwrap(), mode);
    }
}

#[test]
fn ppcie_has_no_devtools_variant() {
    for input in ["devtools", ""] {
        assert!(input.parse::<PpcieMode>().is_err());
    }
}

#[test]
fn a_text_that_names_no_mode_is_quoted() {
    assert_eq!(
        CcMode::named("a\"uto\n").unwrap_err().message(),
        "invalid CC mode \"a\\\"uto\\n\" (expected off, on or devtools)"
    );
    assert_eq!(
        PpcieMode::named("devtools").unwrap_err().message(),
        "invalid PPCIE mode \"devtools\" (expected off or on)"
    );
}

#[test]
fn cc_state_is_the_low_two_bits() {
    assert_eq!(cc_mode_in(0x20), Some(CcMode::Off));
    assert_eq!(cc_mode_in(0x21), Some(CcMode::On));
    assert_eq!(cc_mode_in(0x3), Some(CcMode::DevTools));
    assert_eq!(cc_mode_in(0x2), None);
}

#[test]
fn ppcie_state_decoding() {
    for (reg, bit, expected) in [
        (0x0000_0000, PPCIE_STATE_HOPPER_BIT, PpcieMode::Off),
        (0x0000_0020, PPCIE_STATE_HOPPER_BIT, PpcieMode::On),
        // CC and PPCIE share this register; its low bits are not PPCIE.
        (0x0000_0001, PPCIE_STATE_HOPPER_BIT, PpcieMode::Off),
        (0x0000_0000, PPCIE_STATE_SWITCH_BIT, PpcieMode::Off),
        (0x0000_0001, PPCIE_STATE_SWITCH_BIT, PpcieMode::On),
    ] {
        assert_eq!(ppcie_state(reg, bit), expected);
    }
}

// --- Plans -------------------------------------------------------------------

#[test]
fn enabling_ppcie_turns_cc_off_first() {
    for bar0_decoupler in [true, false] {
        let plan = ppcie_knob_plan(PpcieMode::On, bar0_decoupler);
        let position = |knob| {
            plan.iter()
                .position(|(k, _)| *k == knob)
                .unwrap_or_else(|| panic!("{knob:#x} is not in the plan: {plan:x?}"))
        };
        let ccm = position(KNOB_CCM);

        assert!(
            ccm < position(KNOB_PPCIE),
            "CC must be cleared before PPCIE is set: {plan:x?}"
        );
        assert_eq!(plan[ccm].1, 0);
        assert_eq!(plan.iter().find(|(k, _)| *k == KNOB_CCD).unwrap().1, 0);
    }
}

#[test]
fn the_ppcie_knob_is_written_last() {
    for mode in [PpcieMode::Off, PpcieMode::On] {
        let plan = ppcie_knob_plan(mode, true);
        assert_eq!(plan.last().unwrap().0, KNOB_PPCIE);
        assert_eq!(plan.last().unwrap().1, u16::from(mode == PpcieMode::On));
    }
}

#[test]
fn bar0_decoupler_is_a_gpu_only_filter() {
    for (mode, bar0_decoupler, expected) in [
        (PpcieMode::On, true, 2),
        (PpcieMode::Off, true, 0),
        (PpcieMode::On, false, 0),
        (PpcieMode::Off, false, 0),
    ] {
        let plan = ppcie_knob_plan(mode, bar0_decoupler);
        let value = plan
            .iter()
            .find(|(k, _)| *k == KNOB_BAR0_DECOUPLER)
            .unwrap()
            .1;
        assert_eq!(value, expected);
    }
}

#[test]
fn disabling_ppcie_leaves_the_cc_knobs_alone() {
    let plan = ppcie_knob_plan(PpcieMode::Off, true);
    assert_eq!(plan, vec![(KNOB_BAR0_DECOUPLER, 0), (KNOB_PPCIE, 0)]);
}

#[test]
fn a_ppcie_plan_probes_before_it_writes() {
    assert_eq!(
        ppcie_plan(PpcieMode::Off, false),
        [
            KnobOp::Probe(KNOB_PPCIE),
            KnobOp::Ensure(KNOB_BAR0_DECOUPLER, 0),
            KnobOp::Ensure(KNOB_PPCIE, 0),
        ]
    );
}

#[test]
fn cc_goes_on_first_and_off_last() {
    assert_eq!(
        cc_plan(false, CcMode::DevTools),
        [KnobOp::Ensure(KNOB_CCM, 1), KnobOp::Ensure(KNOB_CCD, 1)]
    );
    assert_eq!(
        cc_plan(false, CcMode::Off),
        [KnobOp::Ensure(KNOB_CCD, 0), KnobOp::Ensure(KNOB_CCM, 0)]
    );
    assert_eq!(
        cc_plan(true, CcMode::On),
        [
            KnobOp::Ensure(KNOB_2, 0),
            KnobOp::Ensure(KNOB_4, 0),
            KnobOp::Ensure(KNOB_34, 0),
            KnobOp::ClearIfKnown(KNOB_PPCIE),
            KnobOp::Ensure(KNOB_BAR0_DECOUPLER, 2),
            KnobOp::Ensure(KNOB_CCM, 1),
            KnobOp::Ensure(KNOB_CCD, 0),
        ]
    );
}

// --- Packets -----------------------------------------------------------------

#[test]
fn knob_read_packet_matches_reference() {
    // The framing of a CCM knob read over PRC (nvdm 0x13).
    let payload = 0xc | 0x2 << 8 | KNOB_CCM << 16;
    assert_eq!(
        mctp_packet(NVDM_PRC, &[payload]),
        vec![0xc000_0000, 0x1310_de7e, 0x0008_020c]
    );
}

#[test]
fn knob_write_packet_matches_reference() {
    let payload = 0xd | 0x2 << 8 | KNOB_CCD << 16;
    assert_eq!(
        mctp_packet(NVDM_PRC, &[payload, 0x1]),
        vec![0xc000_0000, 0x1310_de7e, 0x0006_020d, 0x1]
    );
}

fn response(completion: u32, payload: &[u32]) -> Vec<u32> {
    let mut words = vec![
        MCTP_HEADER,
        mctp_msg_header(NVDM_RESPONSE),
        0,
        NVDM_PRC,
        completion,
    ];
    words.extend(payload);
    words
}

#[test]
fn a_response_carries_a_payload_or_a_completion_code() {
    assert_eq!(check_response(response(0, &[7, 8])).unwrap(), [7, 8]);

    let err = check_response(response(0x1e3, &[])).unwrap_err();
    assert_eq!(err.fault, RpcFault::Completion(FspError { code: 0x1e3 }));
    assert!(is_invalid_knob(&err));
}

#[test]
fn a_response_that_is_none_is_shown() {
    let mut other = response(0, &[]);
    other[3] = NVDM_RESPONSE;
    assert_eq!(
        check_response(other).unwrap_err().message(),
        "FSP response for wrong command: [c0000000, 1510de7e, 0, 15, 0]"
    );
    assert_eq!(
        check_response(mctp_packet(NVDM_PRC, &[0, 0, 0]))
            .unwrap_err()
            .message(),
        "FSP response has wrong nvdm type: [c0000000, 1310de7e, 0, 0, 0]"
    );
    assert_eq!(
        check_response(Vec::new()).unwrap_err().message(),
        "FSP response too short: []"
    );
}

#[test]
fn a_knob_is_the_low_half_of_one_dword() {
    assert_eq!(check_read(KNOB_CCM, Ok(vec![0xdead_0003])).unwrap(), 3);
    assert_eq!(
        check_read(KNOB_CCM, Ok(vec![1, 0xab])).unwrap_err().message(),
        "knob 8 read: bad response [1, ab]"
    );
    assert!(check_write(KNOB_CCM, Ok(vec![])).is_ok());
    assert_eq!(
        check_write(KNOB_CCM, Ok(vec![1])).unwrap_err().message(),
        "knob 8 write: bad response [1]"
    );
}

#[test]
fn a_command_larger_than_the_emem_channel_is_refused() {
    let err = RpcError {
        fault: emem_send(&vec![0; 257]).unwrap_err(),
        words: Vec::new(),
    };

    assert_eq!(err.message(), "FSP command exceeds EMEM channel");
    assert!(emem_send(&vec![0; 256]).is_ok());
}

#[test]
fn a_command_is_announced_by_its_last_dword() {
    let code = emem_send(&[1, 2, 3]).unwrap();

    assert_eq!(code[1], Instr::Write(EMEMC, EMEM_BASE | 1 << 24 | 1 << 25));
    assert_eq!(
        code[code.len() - 2..],
        [
            Instr::Write(QUEUE_TAIL, EMEM_BASE + 8),
            Instr::Write(QUEUE_HEAD, EMEM_BASE),
        ]
    );
}

#[test]
fn mnoc_credits_are_asked_for_every_64_bytes() {
    let waits = |words: usize| {
        mnoc_send(&vec![0; words])
            .iter()
            .filter(|i| matches!(i, Instr::Await(_)))
            .count()
    };

    assert_eq!(waits(16), 2);
    assert_eq!(waits(17), 3);
}

#[test]
fn a_response_that_does_not_fit_is_refused() {
    assert!(emem_fetch(EMEM_BASE, EMEM_BASE + 255 * 4).is_ok());
    assert_eq!(
        emem_fetch(EMEM_BASE, EMEM_BASE + 256 * 4).unwrap_err(),
        RpcFault::ResponseTooLarge
    );
    // An inaccessible BAR0 reads all-ones.
    assert_eq!(
        mnoc_fetch(0xffff_ffff).unwrap_err(),
        RpcFault::MnocResponseTooLarge(0xfffff)
    );
    assert!(mnoc_fetch(1024).is_ok());
}

// --- Errors ------------------------------------------------------------------

#[test]
fn an_fsp_error_names_its_completion_code() {
    assert_eq!(
        FspError { code: 0x1e3 }.to_string(),
        "FSP RPC failed with completion code 0x1e3"
    );
}

fn bare(fault: RpcFault) -> RpcError {
    RpcError {
        fault,
        words: Vec::new(),
    }
}

#[test]
fn only_that_one_code_means_an_invalid_knob() {
    for fault in [
        RpcFault::Completion(FspError { code: 0x5 }),
        RpcFault::NoPpcie,
        RpcFault::TimedOut(What::Response),
    ] {
        assert!(!is_invalid_knob(&bare(fault)));
    }
}

#[test]
fn an_rpc_error_says_what_went_wrong() {
    for (fault, expected) in [
        (
            RpcFault::TimedOut(What::StaleResponse),
            "timed out waiting for stale FSP response",
        ),
        (
            RpcFault::ResponseTooLarge,
            "FSP response exceeds EMEM channel",
        ),
        (
            RpcFault::Mnoc(Way::Send, MNOC_ERROR),
            "FSP MNOC send error: 0x2000000",
        ),
        (
            RpcFault::Mnoc(Way::Receive, 0x5),
            "FSP MNOC receive error: 0x5",
        ),
        (
            RpcFault::MnocResponseTooLarge(2048),
            "FSP MNOC response too large: 0x800 bytes",
        ),
        (
            RpcFault::NoPpcie,
            "firmware does not support PPCIE; a firmware update is required",
        ),
    ] {
        assert_eq!(bare(fault).message(), expected);
    }
}

#[test]
fn a_device_error_names_the_device() {
    let at = |fault| CcError::Device("0000:65:00.0".to_string(), fault).message();

    assert_eq!(
        at(DeviceFault::NotNvidia(0x8086)),
        "0000:65:00.0: vendor 0x8086 is not NVIDIA"
    );
    assert_eq!(
        at(DeviceFault::NotCcCapable(0xb0)),
        "0000:65:00.0: device 0x00b0 is not a CC-capable GPU (Hopper or Blackwell)"
    );
    assert_eq!(
        at(DeviceFault::Bar0Inaccessible),
        "0000:65:00.0: BAR0 not accessible"
    );
    assert_eq!(
        at(DeviceFault::SecurityFault(0xbad0_0200)),
        "0000:65:00.0: GPU is in a security-fault state (BOOT_0 = 0xbad00200)"
    );
    assert_eq!(
        at(DeviceFault::InvalidCcState),
        "0000:65:00.0: invalid CC state (devtools without CC); fix by setting a CC mode"
    );
    assert_eq!(
        at(DeviceFault::C2c),
        "0000:65:00.0: enabling CC in-band is not supported on C2C (Grace) systems"
    );
    assert_eq!(
        at(DeviceFault::NoPpcie(chip_for(0x2901).unwrap())),
        "0000:65:00.0: GB100 does not support PPCIE (Hopper only)"
    );
    assert_eq!(
        at(DeviceFault::NotPpcieSwitch(0x6000a1)),
        "0000:65:00.0: NV_PMC_BOOT_0 0x006000a1 is not a PPCIE-capable NVSwitch"
    );
}

#[test]
fn the_one_switch_row_is_found_by_its_boot0() {
    for row in switches() {
        let found = switch_for(row.boot0).expect("a known switch");
        assert_eq!((found.name, found.boot_complete), ("NVSwitch_gen3", 0x660bc));
    }
}
