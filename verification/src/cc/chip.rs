//! The GPU generations and the switches whose modes can be set.

use vstd::prelude::*;

verus! {

/// One CC-capable GPU generation: a PCI device-id range and the two
/// per-generation register facts.  Supporting a new chip is one row.
#[derive(Clone, Copy, Debug)]
pub struct Chip {
    pub name: &'static str,
    /// Inclusive PCI device-id range.
    pub devid: (u16, u16),
    /// Hopper uses the EMEM RPC channel, extra PRC knobs and a different
    /// CC-state register; Blackwell uses MNOC and has a boot BAR0 firewall.
    pub hopper: bool,
    /// NV_THERM_I2CS_SCRATCH_FSP_BOOT_COMPLETE: reads 0xff once the FSP
    /// has finished booting the GPU.
    pub boot_complete: u32,
}

impl Chip {
    pub open spec fn covers(self, devid: u16) -> bool {
        self.devid.0 <= devid <= self.devid.1
    }
}

/// The CC-capable GPU generations.
pub open spec fn chip_rows() -> Seq<Chip> {
    seq![
        Chip { name: "GH100", devid: (0x22f0, 0x237f), hopper: true, boot_complete: 0x200bc },
        Chip { name: "GB100", devid: (0x2900, 0x297f), hopper: false, boot_complete: 0x200bc },
        Chip { name: "GB102", devid: (0x2980, 0x29ff), hopper: false, boot_complete: 0x200bc },
        Chip { name: "GB110", devid: (0x3180, 0x31ff), hopper: false, boot_complete: 0x200bc },
        Chip { name: "GB112", devid: (0x3200, 0x327f), hopper: false, boot_complete: 0x200bc },
        Chip { name: "GB202", devid: (0x2b80, 0x2bff), hopper: false, boot_complete: 0xad00bc },
        Chip { name: "GB203", devid: (0x2c00, 0x2c7f), hopper: false, boot_complete: 0xad00bc },
        Chip { name: "GB205", devid: (0x2f00, 0x2f7f), hopper: false, boot_complete: 0xad00bc },
        Chip { name: "GB206", devid: (0x2d00, 0x2d7f), hopper: false, boot_complete: 0xad00bc },
        Chip { name: "GB207", devid: (0x2d80, 0x2dff), hopper: false, boot_complete: 0xad00bc },
    ]
}

/// The first of some rows that covers a device id.
pub open spec fn first_covering(rows: Seq<Chip>, devid: u16) -> Option<Chip>
    decreases rows.len(),
{
    if rows.len() == 0 {
        None
    } else if rows[0].covers(devid) {
        Some(rows[0])
    } else {
        first_covering(rows.drop_first(), devid)
    }
}

/// The generation that a device id belongs to.
pub open spec fn known_chip(devid: u16) -> Option<Chip> {
    first_covering(chip_rows(), devid)
}

/// The CC-capable GPU generations, one row each.
pub fn chips() -> (r: [Chip; 10])
    ensures
        r@ == chip_rows(),
{
    let r: [Chip; 10] = [
        Chip { name: "GH100", devid: (0x22f0, 0x237f), hopper: true, boot_complete: 0x200bc },
        Chip { name: "GB100", devid: (0x2900, 0x297f), hopper: false, boot_complete: 0x200bc },
        Chip { name: "GB102", devid: (0x2980, 0x29ff), hopper: false, boot_complete: 0x200bc },
        Chip { name: "GB110", devid: (0x3180, 0x31ff), hopper: false, boot_complete: 0x200bc },
        Chip { name: "GB112", devid: (0x3200, 0x327f), hopper: false, boot_complete: 0x200bc },
        Chip { name: "GB202", devid: (0x2b80, 0x2bff), hopper: false, boot_complete: 0xad00bc },
        Chip { name: "GB203", devid: (0x2c00, 0x2c7f), hopper: false, boot_complete: 0xad00bc },
        Chip { name: "GB205", devid: (0x2f00, 0x2f7f), hopper: false, boot_complete: 0xad00bc },
        Chip { name: "GB206", devid: (0x2d00, 0x2d7f), hopper: false, boot_complete: 0xad00bc },
        Chip { name: "GB207", devid: (0x2d80, 0x2dff), hopper: false, boot_complete: 0xad00bc },
    ];
    assert(r@ =~= chip_rows());
    r
}

pub fn chip_for(devid: u16) -> (r: Option<Chip>)
    ensures
        r == known_chip(devid),
{
    let rows: [Chip; 10] = chips();
    let ghost all = rows@;
    let mut i: usize = 0;
    assert(all.skip(0) =~= all);
    while i < 10
        invariant
            i <= 10,
            rows@ == all,
            all == chip_rows(),
            first_covering(all, devid) == first_covering(all.skip(i as int), devid),
        decreases 10 - i,
    {
        proof {
            assert(all.skip(i as int).drop_first() =~= all.skip(i + 1));
        }
        let row: Chip = rows[i];
        if row.devid.0 <= devid && devid <= row.devid.1 {
            return Some(row);
        }
        i = i + 1;
    }
    None
}

/// Every CC-capable device id belongs to one generation only: the order of
/// the rows does not matter.
pub proof fn generations_do_not_overlap(devid: u16, i: int, j: int)
    requires
        0 <= i < chip_rows().len(),
        0 <= j < chip_rows().len(),
        chip_rows()[i].covers(devid),
        chip_rows()[j].covers(devid),
    ensures
        i == j,
        known_chip(devid) == Some(chip_rows()[i]),
{
    reveal_with_fuel(first_covering, 11);
}

/// CC is owned by system firmware here, so raising it in band is refused.
///
/// Coherence is a matter of (device, subsystem device) pairs; only the device
/// half is kept, no subsystem id being read anywhere in this crate. That
/// over-matches `0x29bc` and `0x31c2`, which have non-coherent variants: a
/// needless refusal, chosen over mistaking a coherent GPU for an ordinary one.
pub const C2C_DEVIDS: [u16; 8] = [
    0x2342,
    0x2343,
    0x2345,
    0x2348,  // GH200
    0x2941,
    0x297e,
    0x29bc,  // GB200
    0x31c2,  // GB300
];

pub open spec fn is_coherent(devid: u16) -> bool {
    C2C_DEVIDS@.contains(devid)
}

/// Also the set needing a vfio driver that can map coherent memory. Wider than
/// that driver's own table: a part can be coherently attached before any
/// released kernel claims it.
pub fn is_c2c(devid: u16) -> (r: bool)
    ensures
        r == is_coherent(devid),
{
    let ids: [u16; 8] = C2C_DEVIDS;
    let mut i: usize = 0;
    while i < 8
        invariant
            i <= 8,
            ids == C2C_DEVIDS,
            forall|j: int| 0 <= j < i ==> ids@[j] != devid,
        decreases 8 - i,
    {
        if ids[i] == devid {
            assert(C2C_DEVIDS@[i as int] == devid);
            return true;
        }
        i = i + 1;
    }
    false
}

/// Every coherently attached part is one of the known chips.
pub proof fn coherent_parts_are_known_chips(devid: u16)
    requires
        is_coherent(devid),
    ensures
        known_chip(devid) is Some,
{
    let i = choose|i: int| 0 <= i < 8 && C2C_DEVIDS@[i] == devid;
    assert(C2C_DEVIDS@ =~= seq![
        0x2342u16,
        0x2343,
        0x2345,
        0x2348,
        0x2941,
        0x297e,
        0x29bc,
        0x31c2,
    ]);
    reveal_with_fuel(first_covering, 11);
}

/// One NVSwitch generation, keyed by `NV_PMC_BOOT_0` rather than PCI
/// device id: switches have no distinguishing id.
#[derive(Clone, Copy, Debug)]
pub struct Switch {
    pub name: &'static str,
    pub boot0: u32,
    /// Reads 0xff once the FSP has finished booting the switch.
    pub boot_complete: u32,
}

/// The one generation with an FSP.  LimeRock (gen2, boot0 0x6000a1) is absent:
/// no FSP, so no PRC knobs.
pub open spec fn nvswitch_gen3() -> Switch {
    Switch { name: "NVSwitch_gen3", boot0: 0x7000a1, boot_complete: 0x660bc }
}

pub open spec fn known_switch(boot0: u32) -> Option<Switch> {
    if boot0 == nvswitch_gen3().boot0 {
        Some(nvswitch_gen3())
    } else {
        None
    }
}

/// The switch generations, one row each.
pub fn switches() -> (r: [Switch; 1])
    ensures
        r@ == seq![nvswitch_gen3()],
{
    let r: [Switch; 1] = [
        Switch { name: "NVSwitch_gen3", boot0: 0x7000a1, boot_complete: 0x660bc },
    ];
    assert(r@ =~= seq![nvswitch_gen3()]);
    r
}

pub fn switch_for(boot0: u32) -> (r: Option<Switch>)
    ensures
        r == known_switch(boot0),
{
    let rows: [Switch; 1] = switches();
    assert(rows@[0] == nvswitch_gen3());
    if boot0 == rows[0].boot0 {
        Some(rows[0])
    } else {
        None
    }
}

// --- What the parts are ------------------------------------------------------

/// A part is of the Hopper generation exactly from 22f0 to 237f, and of the
/// Blackwell generation from 2900 to 29ff, 2b80 to 2c7f, 2d00 to 2dff, 2f00 to
/// 2f7f and 3180 to 327f. It tells at ad00bc that it has booted where its number
/// is from 2b80 to 2fff, and at 200bc elsewhere.
pub proof fn a_part_is_known_by_its_number(devid: u16)
    ensures
        known_chip(devid) is Some <==> 0x22f0 <= devid <= 0x237f || 0x2900 <= devid <= 0x29ff
            || 0x2b80 <= devid <= 0x2c7f || 0x2d00 <= devid <= 0x2dff || 0x2f00 <= devid <= 0x2f7f
            || 0x3180 <= devid <= 0x327f,
        known_chip(devid) matches Some(chip) ==> (chip.hopper <==> 0x22f0 <= devid <= 0x237f),
        known_chip(devid) matches Some(chip) ==> chip.boot_complete == (if 0x2b80 <= devid
            <= 0x2fff {
            0xad00bcu32
        } else {
            0x200bcu32
        }),
        known_chip(devid) matches Some(chip) ==> chip.devid.0 <= devid <= chip.devid.1
            && chip.devid.1 - chip.devid.0 == (if chip.hopper {
            0x8fint
        } else {
            0x7fint
        }),
{
    reveal_with_fuel(first_covering, 11);
}

/// A part is called by the range that its number is in.
pub proof fn a_part_is_called_by_its_range(devid: u16)
    ensures
        known_chip(devid) matches Some(chip) ==> ({
            &&& 0x22f0 <= devid <= 0x237f ==> chip.name@ == "GH100"@
            &&& 0x2900 <= devid <= 0x297f ==> chip.name@ == "GB100"@
            &&& 0x2980 <= devid <= 0x29ff ==> chip.name@ == "GB102"@
            &&& 0x3180 <= devid <= 0x31ff ==> chip.name@ == "GB110"@
            &&& 0x3200 <= devid <= 0x327f ==> chip.name@ == "GB112"@
            &&& 0x2b80 <= devid <= 0x2bff ==> chip.name@ == "GB202"@
            &&& 0x2c00 <= devid <= 0x2c7f ==> chip.name@ == "GB203"@
            &&& 0x2f00 <= devid <= 0x2f7f ==> chip.name@ == "GB205"@
            &&& 0x2d00 <= devid <= 0x2d7f ==> chip.name@ == "GB206"@
            &&& 0x2d80 <= devid <= 0x2dff ==> chip.name@ == "GB207"@
        }),
{
    reveal_with_fuel(first_covering, 11);
}

/// The parts that are attached coherently.
pub proof fn coherent_parts_are_these(devid: u16)
    ensures
        is_coherent(devid) <==> devid == 0x2342 || devid == 0x2343 || devid == 0x2345 || devid
            == 0x2348 || devid == 0x2941 || devid == 0x297e || devid == 0x29bc || devid == 0x31c2,
{
    let ids = seq![
        0x2342u16,
        0x2343,
        0x2345,
        0x2348,
        0x2941,
        0x297e,
        0x29bc,
        0x31c2,
    ];
    assert(C2C_DEVIDS@ =~= ids);
    assert(ids[0] == 0x2342 && ids[1] == 0x2343 && ids[2] == 0x2345 && ids[3] == 0x2348 && ids[4]
        == 0x2941 && ids[5] == 0x297e && ids[6] == 0x29bc && ids[7] == 0x31c2);
}

/// A switch is known by one boot register value, and tells in one register that
/// it has booted.
pub proof fn a_switch_is_known_by_its_boot_register(boot0: u32)
    ensures
        known_switch(boot0) is Some <==> boot0 == 0x7000a1,
        known_switch(boot0) matches Some(switch) ==> switch.boot0 == boot0
            && switch.boot_complete == 0x660bc,
{
}

/// The switches go by one name.
pub proof fn a_switch_has_its_name(boot0: u32)
    ensures
        known_switch(boot0) matches Some(switch) ==> switch.name@ == "NVSwitch_gen3"@,
{
}

} // verus!
