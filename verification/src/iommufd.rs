//! IOMMUFD character devices.

use vstd::prelude::*;

use crate::attr::{a_printed_number_is_read, attr_number, parse_attr};
use crate::kernel::{
    read_in, told_names, told_text, Op, Procedure, Reply, Request, Step, Told, Tree,
};
use crate::listing::{readable, readable_keeps_everything_read, readable_names};
use crate::number::{
    a_decimal_number_is_what_it_says, a_padded_number_is_something, decimal, hex,
    lemma_numeral_chars, lemma_read_unsigned_chars, parse_unsigned, push_decimal, read_unsigned,
    zeros,
};
use crate::path::{entry_name, is_plain_component, join, joined_path};
use crate::pci_ids::{find_device, pci_device_name};
use crate::sort::{
    in_order, lemma_in_order_mapped, rank, sort, sorting_keeps_everything, sorting_loses_nothing,
    Ranked,
};
use crate::sysfs::{class_dir, Sysfs};
use crate::text::{a_prefix_is_taken_off, after_prefix, chars, strip_prefix, texts};

verus! {

/// Root of the IOMMUFD character device tree; cdevs live at
/// `<IOMMUFD_VFIO_DIR>/devices/vfioN`.  Devfs rather than sysfs, so it stays a
/// path of its own.  A kernel contract, not configuration.
pub const IOMMUFD_VFIO_DIR: &'static str = "/dev/vfio";

/// One IOMMUFD character device: the file at `<vfio_dir>/devices/vfioN`,
/// together with the PCI identity read from sysfs.
#[derive(Debug)]
pub struct IommufdDev {
    /// Kernel-assigned index: the `N` in `/dev/vfio/devices/vfioN`.
    pub num: u32,
    /// Absolute path to the character device.
    pub path: String,
    /// PCI vendor ID (e.g. `0x10de` for NVIDIA).
    pub vendor: u16,
    /// PCI device ID (e.g. `0x2330` for an H100 SXM5 80GB).
    pub device: u16,
    /// Full 24-bit PCI class code (class byte | subclass byte | prog-if byte).
    pub class: u32,
}

pub struct CdevState {
    pub num: u32,
    pub path: Seq<char>,
    pub vendor: u16,
    pub device: u16,
    pub class: u32,
}

impl View for IommufdDev {
    type V = CdevState;

    open spec fn view(&self) -> CdevState {
        CdevState {
            num: self.num,
            path: self.path@,
            vendor: self.vendor,
            device: self.device,
            class: self.class,
        }
    }
}

impl Clone for IommufdDev {
    fn clone(&self) -> (r: Self)
        ensures
            r@ == self@,
    {
        IommufdDev {
            num: self.num,
            path: self.path.clone(),
            vendor: self.vendor,
            device: self.device,
            class: self.class,
        }
    }
}

impl IommufdDev {
    /// Base class and subclass: the upper 16 bits of the 24-bit class code,
    /// e.g. `0x0302` for a 3D controller.  This is the granularity device
    /// classification usually wants; the low byte (prog-if) varies by
    /// programming interface, not device kind.
    pub fn class_prefix(&self) -> (r: u16)
        ensures
            r == prefix_of(self.class),
    {
        #[verifier::truncate] ((self.class >> 8) as u16)
    }

    /// The device's name in the PCI ID database (compile-time `pci-ids`
    /// crate), e.g. "GH100 [H100 SXM5 80GB]" for 10de:2330.  None if the
    /// database does not know the (vendor, device) pair.
    pub fn device_name(&self) -> (r: Option<&'static str>)
        ensures
            match r {
                Some(name) => pci_device_name(self.vendor, self.device) == Some(name@),
                None => pci_device_name(self.vendor, self.device) is None,
            },
    {
        find_device(self.vendor, self.device)
    }
}

/// The base class and subclass in a class code.
pub open spec fn prefix_of(class: u32) -> u16 {
    (class >> 8) as u16
}

/// The prefix of a 24-bit class code is the code without its low byte.
pub proof fn class_prefix_drops_the_low_byte(class: u32)
    requires
        class <= 0xff_ffff,
    ensures
        prefix_of(class) == class / 256,
{
    assert(class <= 0xff_ffff ==> (class >> 8) as u16 == class / 256) by (bit_vector);
}

/// PCI class codes (base + subclass, i.e. `class >> 8`) that must NOT be
/// passed through to a guest in a legacy IOMMU group.
///
/// These devices appear in the same IOMMU group as a GPU or NIC but cannot
/// be passed through themselves:
///
/// | Code   | Class                |
/// |--------|----------------------|
/// | 0x0600 | Host Bridge          |
/// | 0x0604 | PCI-to-PCI Bridge    |
/// | 0x0403 | Audio device         |
///
/// NVSwitches (`0x0680`, Other Bridge) are intentionally absent: they are
/// passthrough-capable and the device plugin binds them to `vfio-pci` on
/// purpose.
pub const NON_PASSTHROUGH_CLASSES: [u16; 3] = [0x0600, 0x0604, 0x0403];

/// Returns `true` if a device with the given 24-bit PCI class code can be
/// passed through to a guest.
///
/// The check is based on the base+subclass (upper 16 bits of the 24-bit
/// class code).  Bridges and audio companions that share an IOMMU group
/// with a GPU are not passthrough-capable; everything else is assumed to be.
pub fn is_passthrough_capable_class(class: u32) -> (r: bool)
    ensures
        r == !NON_PASSTHROUGH_CLASSES@.contains(prefix_of(class)),
{
    let prefix: u16 = #[verifier::truncate] ((class >> 8) as u16);
    let refused: [u16; 3] = NON_PASSTHROUGH_CLASSES;
    let mut i: usize = 0;
    while i < 3
        invariant
            i <= 3,
            refused == NON_PASSTHROUGH_CLASSES,
            prefix == prefix_of(class),
            forall|j: int| 0 <= j < i ==> refused@[j] != prefix,
        decreases 3 - i,
    {
        if refused[i] == prefix {
            assert(NON_PASSTHROUGH_CLASSES@[i as int] == prefix);
            return false;
        }
        i = i + 1;
    }
    true
}

// --- Identities --------------------------------------------------------------

/// The index in a kernel name: the `N` in `vfioN`.
pub open spec fn cdev_number(name: Seq<char>) -> Option<u32> {
    match after_prefix(name, "vfio"@) {
        Some(digits) => match read_unsigned(digits, 10, u32::MAX as int) {
            Ok(num) => Some(num as u32),
            Err(_) => None,
        },
        None => None,
    }
}

fn parse_cdev(name: &str) -> (r: Option<u32>)
    ensures
        r == cdev_number(name@),
{
    let name: Vec<char> = chars(name);
    match strip_prefix(&name, "vfio") {
        Some(digits) => match parse_unsigned(digits, 10, 0xffff_ffff) {
            Ok(num) => Some(num as u32),
            Err(_) => None,
        },
        None => None,
    }
}

/// The kernel name with an index.
pub open spec fn cdev_name(num: u32) -> Seq<char> {
    "vfio"@ + decimal(num as int)
}

fn spell_cdev(num: u32) -> (r: String)
    ensures
        r@ == cdev_name(num),
{
    let mut r: String = String::new();
    r.append("vfio");
    push_decimal(&mut r, num as u64);
    assert(r@ =~= cdev_name(num));
    r
}

/// The kernel name of an index reads back as that index.
pub proof fn cdev_name_reads_back(num: u32)
    ensures
        cdev_number(cdev_name(num)) == Some(num),
{
    let name = cdev_name(num);
    let n = "vfio"@.len() as int;
    assert(name.take(n) =~= "vfio"@);
    assert(name.skip(n) =~= decimal(num as int));
    crate::number::decimal_reads_back(num as nat, u32::MAX as int);
}

/// A name with an index in it is one plain component: what it is joined onto is
/// not left.
pub proof fn a_cdev_stays_below_its_directory(name: Seq<char>, base: Seq<char>)
    requires
        cdev_number(name) is Some,
    ensures
        is_plain_component(name),
        entry_name(joined_path(base, name)) == Some(name),
{
    reveal_strlit("vfio");
    let digits = name.skip(4);
    assert(name.take(4) =~= "vfio"@);
    assert(name[0] == name.take(4)[0]);
    lemma_read_unsigned_chars(digits, 10, u32::MAX as int);
    assert forall|i: int| 0 <= i < name.len() implies name[i] != '/' by {
        if i < 4 {
            assert(name[i] == name.take(4)[i]);
        } else {
            assert(name[i] == digits[i - 4]);
        }
    }
    assert(name[0] == 'v');
    crate::path::component_stays_below(base, name);
}

/// The number in an attribute that may be absent.
pub open spec fn id_in(content: Result<Seq<char>, Told>, max: int) -> Option<int> {
    match content {
        Ok(content) => match attr_number(content, max) {
            Ok(value) => Some(value),
            Err(_) => None,
        },
        Err(_) => None,
    }
}

fn parse_id(reply: &Reply, max: u64) -> (r: Option<u64>)
    requires
        reply is Text,
    ensures
        match r {
            Some(value) => id_in(told_text(reply->Text_0), max as int) == Some(value as int)
                && value <= max,
            None => id_in(told_text(reply->Text_0), max as int) is None,
        },
{
    match reply {
        Reply::Text(Ok(content)) => match parse_attr(content, max) {
            Ok(value) => Some(value),
            Err(_) => None,
        },
        _ => None,
    }
}

/// Where sysfs tells who is behind a cdev.
pub open spec fn identity_dir(root: Seq<char>, name: Seq<char>) -> Seq<char> {
    joined_path(joined_path(class_dir(root, "vfio-dev"@), name), "device"@)
}

// --- One device --------------------------------------------------------------

/// What is known of a cdev so far.
#[derive(Clone, Copy, Debug, PartialEq, Eq, Structural)]
pub enum LookPhase {
    /// Looking whether it is there.
    Finding,
    /// Reading the vendor behind it.
    Vendor,
    /// Reading the device id, the vendor being known.
    Device(u16),
    /// Reading the class, vendor and device id being known.
    Class(u16, u16),
}

/// The looking up of a cdev, and of who is behind it.
#[derive(Debug)]
pub struct LookUp {
    num: u32,
    path: String,
    dir: String,
    phase: LookPhase,
}

pub struct LookState {
    pub num: u32,
    /// The cdev.
    pub path: Seq<char>,
    /// Where sysfs tells who is behind it.
    pub dir: Seq<char>,
    pub phase: LookPhase,
}

impl View for LookUp {
    type V = LookState;

    closed spec fn view(&self) -> LookState {
        LookState { num: self.num, path: self.path@, dir: self.dir@, phase: self.phase }
    }
}

pub open spec fn some_cdev(r: Option<IommufdDev>) -> Option<CdevState> {
    match r {
        Some(cdev) => Some(cdev@),
        None => None,
    }
}

impl LookState {
    pub open spec fn request(self) -> Request {
        match self.phase {
            LookPhase::Finding => Request::Exists(self.path),
            LookPhase::Vendor => Request::ReadText(joined_path(self.dir, "vendor"@)),
            LookPhase::Device(_) => Request::ReadText(joined_path(self.dir, "device"@)),
            LookPhase::Class(_, _) => Request::ReadText(joined_path(self.dir, "class"@)),
        }
    }

    pub open spec fn to(self, phase: LookPhase) -> Step<LookState, Option<CdevState>> {
        Step::Next(LookState { phase, ..self })
    }

    /// Where it goes from an answer: nothing more is asked once there is
    /// nothing to be found.
    pub open spec fn after(self, reply: Reply) -> Step<LookState, Option<CdevState>> {
        match self.phase {
            LookPhase::Finding => if reply->Flag_0 {
                self.to(LookPhase::Vendor)
            } else {
                Step::Done(None)
            },
            LookPhase::Vendor => match id_in(told_text(reply->Text_0), u16::MAX as int) {
                Some(vendor) => self.to(LookPhase::Device(vendor as u16)),
                None => Step::Done(None),
            },
            LookPhase::Device(vendor) => match id_in(told_text(reply->Text_0), u16::MAX as int) {
                Some(device) => self.to(LookPhase::Class(vendor, device as u16)),
                None => Step::Done(None),
            },
            LookPhase::Class(vendor, device) => match id_in(
                told_text(reply->Text_0),
                u32::MAX as int,
            ) {
                Some(class) => Step::Done(
                    Some(
                        CdevState {
                            num: self.num,
                            path: self.path,
                            vendor,
                            device,
                            class: class as u32,
                        },
                    ),
                ),
                None => Step::Done(None),
            },
        }
    }
}

pub open spec fn look_step(step: Step<LookUp, Option<IommufdDev>>) -> Step<
    LookState,
    Option<CdevState>,
> {
    match step {
        Step::Next(look) => Step::Next(look@),
        Step::Done(cdev) => Step::Done(some_cdev(cdev)),
    }
}

impl Procedure for LookUp {
    type Output = Option<IommufdDev>;

    open spec fn well_formed(&self) -> bool {
        true
    }

    open spec fn request(&self) -> Request {
        self@.request()
    }

    fn op(&self) -> (op: Op) {
        let ghost _now = (self.well_formed(), self.request());
        match self.phase {
            LookPhase::Finding => Op::Exists(self.path.clone()),
            LookPhase::Vendor => Op::ReadText(join(&self.dir, "vendor")),
            LookPhase::Device(_) => Op::ReadText(join(&self.dir, "device")),
            LookPhase::Class(_, _) => Op::ReadText(join(&self.dir, "class")),
        }
    }

    fn resume(self, reply: Reply) -> (step: Step<Self, Self::Output>)
        ensures
            look_step(step) == self@.after(reply),
    {
        let ghost _now = (self.well_formed(), self.request());
        match self.phase {
            LookPhase::Finding => match reply {
                Reply::Flag(true) => Step::Next(LookUp { phase: LookPhase::Vendor, ..self }),
                _ => Step::Done(None),
            },
            LookPhase::Vendor => match parse_id(&reply, 0xffff) {
                Some(vendor) => Step::Next(
                    LookUp { phase: LookPhase::Device(vendor as u16), ..self },
                ),
                None => Step::Done(None),
            },
            LookPhase::Device(vendor) => match parse_id(&reply, 0xffff) {
                Some(device) => Step::Next(
                    LookUp { phase: LookPhase::Class(vendor, device as u16), ..self },
                ),
                None => Step::Done(None),
            },
            LookPhase::Class(vendor, device) => match parse_id(&reply, 0xffff_ffff) {
                Some(class) => Step::Done(
                    Some(
                        IommufdDev {
                            num: self.num,
                            path: self.path,
                            vendor,
                            device,
                            class: class as u32,
                        },
                    ),
                ),
                None => Step::Done(None),
            },
        }
    }
}

/// Look up a single IOMMUFD character device by its kernel name (e.g. `"vfio5"`).
///
/// Reads PCI identity from `<sysfs>/class/vfio-dev/<name>/device/`.
/// Comes to `None` if the cdev or its sysfs entry is absent or any field
/// cannot be parsed.
///
/// This is the single-device counterpart to [`enumerate_iommufd`]: use it
/// when the caller already knows which cdev it wants (e.g. from a CDI spec)
/// and does not need to scan the full `/dev/vfio/devices/` directory.
pub fn lookup_iommufd_dev(name: &str, vfio_dir: &str, sysfs: &Sysfs) -> (r: Step<
    LookUp,
    Option<IommufdDev>,
>)
    ensures
        match (r, cdev_number(name@)) {
            (Step::Next(look), Some(num)) => {
                &&& look@ == LookState {
                    num,
                    path: joined_path(joined_path(vfio_dir@, "devices"@), name@),
                    dir: identity_dir(sysfs.root(), name@),
                    phase: LookPhase::Finding,
                }
                &&& look.well_formed()
            },
            (Step::Done(cdev), None) => cdev is None,
            _ => false,
        },
{
    match parse_cdev(name) {
        Some(num) => Step::Next(
            LookUp {
                num,
                path: join(&join(vfio_dir, "devices"), name),
                dir: join(&sysfs.vfio_dev(name), "device"),
                phase: LookPhase::Finding,
            },
        ),
        None => Step::Done(None),
    }
}

// --- All devices -------------------------------------------------------------

/// The indices among some names.
pub open spec fn cdev_numbers(names: Seq<Seq<char>>) -> Seq<u32>
    decreases names.len(),
{
    if names.len() == 0 {
        seq![]
    } else {
        let before = cdev_numbers(names.drop_last());
        match cdev_number(names.last()) {
            Some(num) => before.push(num),
            None => before,
        }
    }
}

fn find_numbers(names: &Vec<String>) -> (r: Vec<u32>)
    ensures
        r@ == cdev_numbers(texts(names@)),
{
    let ghost all = texts(names@);
    let mut r: Vec<u32> = Vec::new();
    let mut i: usize = 0;
    while i < names.len()
        invariant
            i <= names.len(),
            all == texts(names@),
            r@ == cdev_numbers(all.take(i as int)),
        decreases names.len() - i,
    {
        proof {
            assert(all.take(i + 1).drop_last() =~= all.take(i as int));
            assert(all.take(i + 1).last() == names@[i as int]@);
        }
        if let Some(num) = parse_cdev(&names[i]) {
            r.push(num);
        }
        i = i + 1;
    }
    assert(all.take(i as int) =~= all);
    r
}

/// Cdevs by index.
pub open spec fn by_num() -> spec_fn(CdevState, CdevState) -> bool {
    |a: CdevState, b: CdevState| a.num < b.num
}

/// Indices order the cdevs, so that what sorting keeps, it keeps of them.
pub proof fn cdevs_are_ordered_by_number()
    ensures
        crate::sort::is_order(by_num()),
{
}

pub open spec fn cdevs(v: Seq<IommufdDev>) -> Seq<CdevState> {
    v.map_values(|cdev: IommufdDev| cdev@)
}

impl Ranked for IommufdDev {
    open spec fn ranks_before(self, other: Self) -> bool {
        self.num < other.num
    }

    fn is_before(&self, other: &Self) -> (r: bool) {
        self.num < other.num
    }
}

/// The looking up of every cdev there is.
#[derive(Debug)]
pub enum EnumerateCdevs {
    /// Listing them: where they are, and the tree that tells who is behind
    /// them.
    Listing(String, Sysfs),
    /// Looking them up one after the other: their indices, which of them it is
    /// about, and those already found.
    Looking(String, Sysfs, Vec<u32>, usize, Vec<IommufdDev>, LookUp),
}

pub enum CdevsState {
    Listing(Seq<char>, Seq<char>),
    Looking(Seq<char>, Seq<char>, Seq<u32>, int, Seq<CdevState>, LookState),
}

impl View for EnumerateCdevs {
    type V = CdevsState;

    open spec fn view(&self) -> CdevsState {
        match *self {
            EnumerateCdevs::Listing(devices, sysfs) => CdevsState::Listing(devices@, sysfs.root()),
            EnumerateCdevs::Looking(devices, sysfs, nums, at, found, look) => CdevsState::Looking(
                devices@,
                sysfs.root(),
                nums@,
                at as int,
                cdevs(found@),
                look@,
            ),
        }
    }
}

/// The looking up of the cdev with an index, which has been listed.
pub open spec fn look_of(devices: Seq<char>, root: Seq<char>, num: u32) -> LookState {
    LookState {
        num,
        path: joined_path(devices, cdev_name(num)),
        dir: identity_dir(root, cdev_name(num)),
        phase: LookPhase::Vendor,
    }
}

impl CdevsState {
    pub open spec fn request(self) -> Request {
        match self {
            CdevsState::Listing(devices, _) => Request::ListDir(devices),
            CdevsState::Looking(_, _, _, _, _, look) => look.request(),
        }
    }

    /// Look the cdevs up from one of the indices on.
    pub open spec fn look_from(
        devices: Seq<char>,
        root: Seq<char>,
        nums: Seq<u32>,
        at: int,
        found: Seq<CdevState>,
    ) -> Step<CdevsState, Seq<CdevState>> {
        if at == nums.len() {
            Step::Done(in_order(found, by_num()))
        } else {
            Step::Next(
                CdevsState::Looking(devices, root, nums, at, found, look_of(devices, root, nums[at])),
            )
        }
    }

    pub open spec fn after(self, reply: Reply) -> Step<CdevsState, Seq<CdevState>> {
        match self {
            CdevsState::Listing(devices, root) => match told_names(reply->Names_0) {
                Ok(entries) => Self::look_from(
                    devices,
                    root,
                    cdev_numbers(readable(entries)),
                    0,
                    seq![],
                ),
                Err(_) => Step::Done(seq![]),
            },
            CdevsState::Looking(devices, root, nums, at, found, look) => match look.after(reply) {
                Step::Next(look) => Step::Next(
                    CdevsState::Looking(devices, root, nums, at, found, look),
                ),
                Step::Done(Some(cdev)) => Self::look_from(
                    devices,
                    root,
                    nums,
                    at + 1,
                    found.push(cdev),
                ),
                Step::Done(None) => Self::look_from(devices, root, nums, at + 1, found),
            },
        }
    }
}

pub open spec fn cdevs_step(step: Step<EnumerateCdevs, Vec<IommufdDev>>) -> Step<
    CdevsState,
    Seq<CdevState>,
> {
    match step {
        Step::Next(enumerate) => Step::Next(enumerate@),
        Step::Done(found) => Step::Done(cdevs(found@)),
    }
}

impl EnumerateCdevs {
    /// Whether it is about one of the cdevs.
    pub open spec fn is_complete(&self) -> bool {
        match *self {
            EnumerateCdevs::Listing(_, _) => true,
            EnumerateCdevs::Looking(_, _, nums, at, _, _) => at < nums.len(),
        }
    }

    fn look_from(
        devices: String,
        sysfs: Sysfs,
        nums: Vec<u32>,
        at: usize,
        found: Vec<IommufdDev>,
    ) -> (step: Step<EnumerateCdevs, Vec<IommufdDev>>)
        requires
            at <= nums.len(),
        ensures
            cdevs_step(step) == CdevsState::look_from(
                devices@,
                sysfs.root(),
                nums@,
                at as int,
                cdevs(found@),
            ),
            step matches Step::Next(next) ==> next.is_complete(),
    {
        if at == nums.len() {
            proof {
                lemma_in_order_mapped(
                    found@,
                    rank::<IommufdDev>(),
                    |cdev: IommufdDev| cdev@,
                    by_num(),
                );
            }
            return Step::Done(sort(found));
        }
        let name: String = spell_cdev(nums[at]);
        let look: LookUp = LookUp {
            num: nums[at],
            path: join(&devices, &name),
            dir: join(&sysfs.vfio_dev(&name), "device"),
            phase: LookPhase::Vendor,
        };
        Step::Next(EnumerateCdevs::Looking(devices, sysfs, nums, at, found, look))
    }
}

impl Procedure for EnumerateCdevs {
    type Output = Vec<IommufdDev>;

    open spec fn well_formed(&self) -> bool {
        self.is_complete()
    }

    open spec fn request(&self) -> Request {
        self@.request()
    }

    fn op(&self) -> (op: Op) {
        let ghost _now = (self.well_formed(), self.request());
        match self {
            EnumerateCdevs::Listing(devices, _) => Op::ListDir(devices.clone()),
            EnumerateCdevs::Looking(_, _, _, _, _, look) => look.op(),
        }
    }

    fn resume(self, reply: Reply) -> (step: Step<Self, Self::Output>)
        ensures
            cdevs_step(step) == self@.after(reply),
    {
        let ghost _now = (self.well_formed(), self.request());
        match self {
            EnumerateCdevs::Listing(devices, sysfs) => {
                let found: Vec<IommufdDev> = Vec::new();
                assert(cdevs(found@) =~= seq![]);
                match &reply {
                    Reply::Names(Ok(entries)) => {
                        let nums: Vec<u32> = find_numbers(&readable_names(entries));
                        Self::look_from(devices, sysfs, nums, 0, found)
                    },
                    _ => Step::Done(found),
                }
            },
            EnumerateCdevs::Looking(devices, sysfs, nums, at, found, look) => {
                match look.resume(reply) {
                    Step::Next(look) => Step::Next(
                        EnumerateCdevs::Looking(devices, sysfs, nums, at, found, look),
                    ),
                    Step::Done(Some(cdev)) => {
                        let ghost before = found@;
                        let ghost seen = cdev@;
                        let mut found: Vec<IommufdDev> = found;
                        found.push(cdev);
                        assert(cdevs(found@) =~= cdevs(before).push(seen));
                        Self::look_from(devices, sysfs, nums, at + 1, found)
                    },
                    Step::Done(None) => Self::look_from(devices, sysfs, nums, at + 1, found),
                }
            },
        }
    }
}

/// Enumerate all IOMMUFD character devices under `<vfio_dir>/devices/` and
/// resolve their PCI identity from sysfs.  Entries whose sysfs files are
/// absent or unparseable are silently skipped.  Result is sorted by device
/// number.
pub fn enumerate_iommufd(vfio_dir: &str, sysfs: &Sysfs) -> (r: EnumerateCdevs)
    ensures
        r@ == CdevsState::Listing(joined_path(vfio_dir@, "devices"@), sysfs.root()),
        r.well_formed(),
{
    EnumerateCdevs::Listing(join(vfio_dir, "devices"), sysfs.clone())
}

// --- What a tree tells -------------------------------------------------------

/// Finding cdevs changes nothing.
pub proof fn looking_for_cdevs_changes_nothing(state: CdevsState, look: LookState)
    ensures
        state.request().is_question(),
        look.request().is_question(),
{
}

/// The cdev with an index, going by a tree; none where an id is missing or does
/// not parse.
pub open spec fn cdev_in(tree: Tree, devices: Seq<char>, root: Seq<char>, num: u32) -> Option<
    CdevState,
> {
    let dir = identity_dir(root, cdev_name(num));
    match (
        id_in(read_in(tree, joined_path(dir, "vendor"@)), u16::MAX as int),
        id_in(read_in(tree, joined_path(dir, "device"@)), u16::MAX as int),
        id_in(read_in(tree, joined_path(dir, "class"@)), u32::MAX as int),
    ) {
        (Some(vendor), Some(device), Some(class)) => Some(
            CdevState {
                num,
                path: joined_path(devices, cdev_name(num)),
                vendor: vendor as u16,
                device: device as u16,
                class: class as u32,
            },
        ),
        _ => None,
    }
}

/// The cdevs with some indices, going by a tree.
pub open spec fn cdevs_in(tree: Tree, devices: Seq<char>, root: Seq<char>, nums: Seq<u32>) -> Seq<
    CdevState,
>
    decreases nums.len(),
{
    if nums.len() == 0 {
        seq![]
    } else {
        let rest = cdevs_in(tree, devices, root, nums.drop_first());
        match cdev_in(tree, devices, root, nums[0]) {
            Some(cdev) => seq![cdev] + rest,
            None => rest,
        }
    }
}

/// How many cdevs and how many questions about the one under way are left.
pub open spec fn cdevs_left(state: CdevsState) -> (nat, nat) {
    match state {
        CdevsState::Listing(_, _) => (0, 0),
        CdevsState::Looking(_, _, nums, at, _, look) => (
            (nums.len() - at) as nat,
            match look.phase {
                LookPhase::Finding => 3,
                LookPhase::Vendor => 2,
                LookPhase::Device(_) => 1,
                LookPhase::Class(_, _) => 0,
            },
        ),
    }
}

/// What looking for cdevs comes to in a tree, once they are listed.
pub open spec fn cdevs_run(step: Step<CdevsState, Seq<CdevState>>, tree: Tree) -> Seq<CdevState>
    decreases
            (match step {
                Step::Next(state) => cdevs_left(state).0 + 1,
                Step::Done(_) => 0,
            }),
            (match step {
                Step::Next(state) => cdevs_left(state).1,
                Step::Done(_) => 0,
            }),
{
    match step {
        Step::Done(found) => found,
        Step::Next(state) => {
            let next = state.after(tree(state.request()));
            let (before, after) = (
                cdevs_left(state),
                match next {
                    Step::Next(next) => cdevs_left(next),
                    Step::Done(_) => (0, 0),
                },
            );
            if next is Done || after.0 < before.0 || (after.0 == before.0 && after.1 < before.1) {
                cdevs_run(next, tree)
            } else {
                seq![]
            }
        },
    }
}

/// In a tree that does not change, an enumeration comes to the cdevs whose
/// identity it tells, by index, and to nothing else.
pub proof fn an_enumeration_finds_the_cdevs_there_are(
    tree: Tree,
    devices: Seq<char>,
    root: Seq<char>,
    nums: Seq<u32>,
    at: int,
    found: Seq<CdevState>,
)
    requires
        0 <= at <= nums.len(),
    ensures
        cdevs_run(CdevsState::look_from(devices, root, nums, at, found), tree) == in_order(
            found + cdevs_in(tree, devices, root, nums.skip(at)),
            by_num(),
        ),
    decreases nums.len() - at,
{
    if at == nums.len() {
        assert(nums.skip(at) =~= seq![]);
        assert(found + Seq::<CdevState>::empty() =~= found);
    } else {
        let num = nums[at];
        let rest = nums.skip(at);
        assert(rest.drop_first() =~= nums.skip(at + 1));
        reveal_with_fuel(cdevs_run, 4);
        let later = cdevs_in(tree, devices, root, nums.skip(at + 1));
        an_enumeration_finds_the_cdevs_there_are(tree, devices, root, nums, at + 1, found);
        match cdev_in(tree, devices, root, num) {
            Some(cdev) => {
                an_enumeration_finds_the_cdevs_there_are(
                    tree,
                    devices,
                    root,
                    nums,
                    at + 1,
                    found.push(cdev),
                );
                assert(found.push(cdev) + later =~= found + (seq![cdev] + later));
            },
            None => {},
        }
    }
}

// --- Which devices there are -------------------------------------------------

/// A function can be passed through unless its class, but for the programming
/// interface, is that of a host bridge, of a PCI-to-PCI bridge or of an audio
/// device.
pub proof fn bridges_and_audio_stay_behind(class: u32)
    ensures
        !NON_PASSTHROUGH_CLASSES@.contains(prefix_of(class)) <==> {
            let prefix = (class / 256) % 0x10000;
            prefix != 0x0600 && prefix != 0x0604 && prefix != 0x0403
        },
{
    let refused = seq![0x0600u16, 0x0604, 0x0403];
    assert(NON_PASSTHROUGH_CLASSES@ =~= refused);
    assert((class >> 8) as u16 == (class / 256) % 0x10000u32) by (bit_vector);
    assert(refused[0] == 0x0600 && refused[1] == 0x0604 && refused[2] == 0x0403);
}

/// A cdev is called `vfio` and its index.
pub proof fn a_cdev_is_called_by_its_index(num: nat, name: Seq<char>)
    ensures
        cdev_number("vfio"@ + decimal(num as int)) == if num <= 0xffff_ffff {
            Some(num as u32)
        } else {
            None
        },
        cdev_number(name) is Some ==> name.len() > 4 && name.take(4) == "vfio"@,
{
    reveal_strlit("vfio");
    a_prefix_is_taken_off("vfio"@, decimal(num as int), name);
    a_decimal_number_is_what_it_says(num, u32::MAX as int);
    if let Some(rest) = after_prefix(name, "vfio"@) {
        if rest.len() == 0 {
            assert(rest =~= seq![]);
        }
        assert(name.take(4) =~= "vfio"@);
    }
}

/// Every name of a cdev gives its index, in the order of the names, and no other
/// name gives one.
pub proof fn every_cdev_is_counted(a: Seq<Seq<char>>, b: Seq<Seq<char>>)
    ensures
        cdev_numbers(a + b) == cdev_numbers(a) + cdev_numbers(b),
        forall|name: Seq<char>| #[trigger]
            cdev_numbers(seq![name]) == (match cdev_number(name) {
                Some(num) => seq![num],
                None => seq![],
            }),
        forall|i: int|
            0 <= i < a.len() && cdev_number(#[trigger] a[i]) is Some ==> cdev_numbers(a).contains(
                cdev_number(a[i])->0,
            ),
    decreases b.len(),
{
    reveal_with_fuel(cdev_numbers, 2);
    assert forall|name: Seq<char>| #[trigger]
        cdev_numbers(seq![name]) == (match cdev_number(name) {
            Some(num) => seq![num],
            None => seq![],
        }) by {
        assert(seq![name].drop_last() =~= seq![]);
    }
    if b.len() == 0 {
        assert(a + b =~= a);
    } else {
        assert((a + b).drop_last() =~= a + b.drop_last());
        every_cdev_is_counted(a, b.drop_last());
    }
    assert forall|i: int|
        0 <= i < a.len() && cdev_number(#[trigger] a[i]) is Some implies cdev_numbers(a).contains(
        cdev_number(a[i])->0,
    ) by {
        lemma_number_counted(a, i);
    }
}

proof fn lemma_number_counted(a: Seq<Seq<char>>, i: int)
    requires
        0 <= i < a.len(),
        cdev_number(a[i]) is Some,
    ensures
        cdev_numbers(a).contains(cdev_number(a[i])->0),
    decreases a.len(),
{
    let num = cdev_number(a[i])->0;
    let all = cdev_numbers(a);
    let before = cdev_numbers(a.drop_last());
    if i < a.len() - 1 {
        assert(a.drop_last()[i] == a[i]);
        lemma_number_counted(a.drop_last(), i);
        let j = choose|j: int| 0 <= j < before.len() && before[j] == num;
        assert(all[j] == num);
    } else {
        assert(all[all.len() - 1] == num);
    }
}

proof fn lemma_cdev_found(tree: Tree, devices: Seq<char>, root: Seq<char>, nums: Seq<u32>, i: int)
    requires
        0 <= i < nums.len(),
        cdev_in(tree, devices, root, nums[i]) is Some,
    ensures
        cdevs_in(tree, devices, root, nums).contains(cdev_in(tree, devices, root, nums[i])->0),
    decreases nums.len(),
{
    let cdev = cdev_in(tree, devices, root, nums[i])->0;
    let all = cdevs_in(tree, devices, root, nums);
    let rest = cdevs_in(tree, devices, root, nums.drop_first());
    if i > 0 {
        assert(nums.drop_first()[i - 1] == nums[i]);
        lemma_cdev_found(tree, devices, root, nums.drop_first(), i - 1);
        let j = choose|j: int| 0 <= j < rest.len() && rest[j] == cdev;
        if cdev_in(tree, devices, root, nums[0]) is Some {
            assert(all[j + 1] == cdev);
        } else {
            assert(all[j] == cdev);
        }
    } else {
        assert(all[0] == cdev);
    }
}

proof fn lemma_cdev_is_there(
    tree: Tree,
    devices: Seq<char>,
    root: Seq<char>,
    nums: Seq<u32>,
    k: int,
) -> (i: int)
    requires
        0 <= k < cdevs_in(tree, devices, root, nums).len(),
    ensures
        0 <= i < nums.len(),
        cdev_in(tree, devices, root, nums[i]) == Some(cdevs_in(tree, devices, root, nums)[k]),
    decreases nums.len(),
{
    let rest = cdevs_in(tree, devices, root, nums.drop_first());
    if cdev_in(tree, devices, root, nums[0]) is None {
        let i = lemma_cdev_is_there(tree, devices, root, nums.drop_first(), k);
        assert(nums.drop_first()[i] == nums[i + 1]);
        i + 1
    } else if k > 0 {
        let i = lemma_cdev_is_there(tree, devices, root, nums.drop_first(), k - 1);
        assert(nums.drop_first()[i] == nums[i + 1]);
        i + 1
    } else {
        0
    }
}

proof fn lemma_identity_dir(root: Seq<char>, num: u32)
    requires
        root.len() > 0,
        root.last() != '/',
    ensures
        ({
            let dir = root + "/class/vfio-dev/vfio"@ + decimal(num as int) + "/device"@;
            identity_dir(root, cdev_name(num)) == dir && dir.len() > 0 && dir.last() == 'e'
        }),
{
    let name = cdev_name(num);
    let one = joined_path(root, "class"@);
    let two = joined_path(one, "vfio-dev"@);
    let three = joined_path(two, name);
    let dir = root + "/class/vfio-dev/vfio"@ + decimal(num as int) + "/device"@;
    reveal_strlit("vfio");
    assert(name[0] == 'v');
    reveal_strlit("class");
    assert(one =~= root + seq!['/'] + "class"@);
    reveal_strlit("vfio-dev");
    assert(two =~= one + seq!['/'] + "vfio-dev"@);
    assert(three =~= two + seq!['/'] + name);
    reveal_strlit("device");
    assert(three.last() != '/') by {
        lemma_numeral_chars(num as nat, 0, 10, false);
        a_padded_number_is_something(num as nat, 0);
        let d = decimal(num as int);
        assert(zeros(0 - d.len()) + d =~= d);
        assert(48 <= d[d.len() - 1] as int <= 57 || 97 <= d[d.len() - 1] as int <= 102);
        assert(three.last() == d[d.len() - 1]);
    }
    assert(identity_dir(root, name) =~= three + seq!['/'] + "device"@);
    reveal_strlit("/class/vfio-dev/vfio");
    reveal_strlit("/device");
    assert("/class/vfio-dev/vfio"@ =~= seq!['/'] + "class"@ + seq!['/'] + "vfio-dev"@ + seq!['/']
        + "vfio"@);
    assert("/device"@ =~= seq!['/'] + "device"@);
    assert(root + (seq!['/'] + "class"@ + seq!['/'] + "vfio-dev"@ + seq!['/'] + "vfio"@) =~= two
        + seq!['/'] + "vfio"@);
    assert(dir =~= three + seq!['/'] + "device"@);
}

proof fn lemma_identity_files(dir: Seq<char>)
    requires
        dir.len() > 0,
        dir.last() == 'e',
    ensures
        joined_path(dir, "vendor"@) == dir + "/vendor"@,
        joined_path(dir, "device"@) == dir + "/device"@,
        joined_path(dir, "class"@) == dir + "/class"@,
{
    reveal_strlit("device");
    reveal_strlit("vendor");
    reveal_strlit("class");
    reveal_strlit("/device");
    reveal_strlit("/vendor");
    reveal_strlit("/class");
}

/// Who is behind a cdev is as sysfs prints it: vendor, device and class in hex,
/// each on a line. One of which any is not there is none.
pub proof fn a_cdev_is_who_is_behind_it(
    tree: Tree,
    devices: Seq<char>,
    root: Seq<char>,
    num: u32,
    vendor: u16,
    device: u16,
    class: u32,
)
    requires
        root.len() > 0,
        root.last() != '/',
    ensures
        ({
            let dir = root + "/class/vfio-dev/vfio"@ + decimal(num as int) + "/device"@;
            let (v, d, c) = (
                read_in(tree, dir + "/vendor"@),
                read_in(tree, dir + "/device"@),
                read_in(tree, dir + "/class"@),
            );
            &&& v == Ok::<Seq<char>, Told>(seq!['0', 'x'] + hex(vendor as int, 4) + seq!['\n'])
                && d == Ok::<Seq<char>, Told>(seq!['0', 'x'] + hex(device as int, 4) + seq!['\n'])
                && c == Ok::<Seq<char>, Told>(seq!['0', 'x'] + hex(class as int, 6) + seq!['\n'])
                ==> cdev_in(tree, devices, root, num) == Some(
                CdevState {
                    num,
                    path: joined_path(devices, "vfio"@ + decimal(num as int)),
                    vendor,
                    device,
                    class,
                },
            )
            &&& v is Err || d is Err || c is Err ==> cdev_in(tree, devices, root, num) is None
        }),
{
    let dir = root + "/class/vfio-dev/vfio"@ + decimal(num as int) + "/device"@;
    lemma_identity_dir(root, num);
    lemma_identity_files(dir);
    a_printed_number_is_read(seq![], vendor as nat, 4, seq!['\n'], u16::MAX as int);
    a_printed_number_is_read(seq![], device as nat, 4, seq!['\n'], u16::MAX as int);
    a_printed_number_is_read(seq![], class as nat, 6, seq!['\n'], u32::MAX as int);
    let (v, d, c) = (
        seq!['0', 'x'] + hex(vendor as int, 4),
        seq!['0', 'x'] + hex(device as int, 4),
        seq!['0', 'x'] + hex(class as int, 6),
    );
    assert(seq![] + v + seq!['\n'] =~= v + seq!['\n']);
    assert(seq![] + d + seq!['\n'] =~= d + seq!['\n']);
    assert(seq![] + c + seq!['\n'] =~= c + seq!['\n']);
}

/// An enumeration finds every cdev that is listed and whose identity the tree
/// tells, and no other; they come by rising index.
pub proof fn every_cdev_is_found(
    tree: Tree,
    devices: Seq<char>,
    root: Seq<char>,
    entries: Seq<Result<Seq<char>, Told>>,
)
    requires
        told_names(tree(Request::ListDir(devices))->Names_0) == Ok::<
            Seq<Result<Seq<char>, Told>>,
            Told,
        >(entries),
    ensures
        ({
            let list = CdevsState::Listing(devices, root);
            let found = cdevs_run(list.after(tree(list.request())), tree);
            &&& forall|num: u32|
                entries.contains(Ok::<Seq<char>, Told>(cdev_name(num))) && (#[trigger] cdev_in(
                    tree,
                    devices,
                    root,
                    num,
                )) is Some ==> found.contains(cdev_in(tree, devices, root, num)->0)
            &&& forall|k: int|
                0 <= k < found.len() ==> cdev_in(
                    tree,
                    devices,
                    root,
                    (#[trigger] found[k]).num,
                ) == Some(found[k])
            &&& forall|j: int, k: int|
                0 <= j < k < found.len() ==> (#[trigger] found[j]).num <= (#[trigger] found[k]).num
        }),
{
    let list = CdevsState::Listing(devices, root);
    let names = readable(entries);
    let nums = cdev_numbers(names);
    let all = cdevs_in(tree, devices, root, nums);
    let found = cdevs_run(list.after(tree(list.request())), tree);
    an_enumeration_finds_the_cdevs_there_are(tree, devices, root, nums, 0, seq![]);
    assert(nums.skip(0) =~= nums);
    assert(Seq::<CdevState>::empty() + all =~= all);
    cdevs_are_ordered_by_number();
    sorting_keeps_everything(all, by_num());
    assert forall|num: u32|
        entries.contains(Ok::<Seq<char>, Told>(cdev_name(num))) && (#[trigger] cdev_in(
            tree,
            devices,
            root,
            num,
        )) is Some implies found.contains(cdev_in(tree, devices, root, num)->0) by {
        readable_keeps_everything_read(entries, seq![]);
        assert(names.contains(cdev_name(num)));
        let i = choose|i: int| 0 <= i < names.len() && names[i] == cdev_name(num);
        cdev_name_reads_back(num);
        lemma_number_counted(names, i);
        let j = choose|j: int| 0 <= j < nums.len() && nums[j] == num;
        lemma_cdev_found(tree, devices, root, nums, j);
        sorting_loses_nothing(all, by_num(), cdev_in(tree, devices, root, num)->0);
    }
    assert forall|k: int| 0 <= k < found.len() implies cdev_in(
        tree,
        devices,
        root,
        (#[trigger] found[k]).num,
    ) == Some(found[k]) by {
        sorting_loses_nothing(all, by_num(), found[k]);
        assert(found.contains(found[k]));
        let m = choose|m: int| 0 <= m < all.len() && all[m] == found[k];
        let i = lemma_cdev_is_there(tree, devices, root, nums, m);
    }
}

/// What looking one cdev up comes to in a tree.
pub open spec fn look_run(look: LookState, tree: Tree) -> Option<CdevState>
    decreases look_left(look.phase),
{
    match look.after(tree(look.request())) {
        Step::Done(end) => end,
        Step::Next(next) => if look_left(next.phase) < look_left(look.phase) {
            look_run(next, tree)
        } else {
            None
        },
    }
}

/// How many questions about a cdev are left after one.
pub open spec fn look_left(phase: LookPhase) -> nat {
    match phase {
        LookPhase::Finding => 3,
        LookPhase::Vendor => 2,
        LookPhase::Device(_) => 1,
        LookPhase::Class(_, _) => 0,
    }
}

/// Looking a cdev up by its name comes to what the tree tells of it, where it is
/// there, and to nothing where it is not.
pub proof fn a_cdev_is_looked_up(tree: Tree, devices: Seq<char>, root: Seq<char>, num: u32)
    ensures
        ({
            let name = cdev_name(num);
            let look = LookState {
                num,
                path: joined_path(devices, name),
                dir: identity_dir(root, name),
                phase: LookPhase::Finding,
            };
            look_run(look, tree) == if tree(Request::Exists(joined_path(devices, name)))->Flag_0 {
                cdev_in(tree, devices, root, num)
            } else {
                None
            }
        }),
{
    reveal_with_fuel(look_run, 4);
}

/// The cdevs are looked for below `/dev`.
pub proof fn the_cdevs_are_below_dev()
    ensures
        IOMMUFD_VFIO_DIR@ == "/dev/vfio"@,
{
}

/// Where the cdevs cannot be listed, there are none.
pub proof fn no_listing_is_no_cdevs(tree: Tree, devices: Seq<char>, root: Seq<char>)
    requires
        told_names(tree(Request::ListDir(devices))->Names_0) is Err,
    ensures
        ({
            let list = CdevsState::Listing(devices, root);
            cdevs_run(list.after(tree(list.request())), tree) == Seq::<CdevState>::empty()
        }),
{
}

proof fn lemma_cdevs_are_few(
    tree: Tree,
    devices: Seq<char>,
    root: Seq<char>,
    names: Seq<Seq<char>>,
    nums: Seq<u32>,
)
    ensures
        cdev_numbers(names).len() <= names.len(),
        cdevs_in(tree, devices, root, nums).len() <= nums.len(),
    decreases names.len() + nums.len(),
{
    if names.len() > 0 {
        lemma_cdevs_are_few(tree, devices, root, names.drop_last(), nums);
    }
    if nums.len() > 0 {
        lemma_cdevs_are_few(tree, devices, root, names, nums.drop_first());
    }
}

/// An enumeration finds no more cdevs than are listed: none comes twice that is
/// listed once.
pub proof fn no_cdev_is_made_up(
    tree: Tree,
    devices: Seq<char>,
    root: Seq<char>,
    entries: Seq<Result<Seq<char>, Told>>,
)
    requires
        told_names(tree(Request::ListDir(devices))->Names_0) == Ok::<
            Seq<Result<Seq<char>, Told>>,
            Told,
        >(entries),
    ensures
        ({
            let list = CdevsState::Listing(devices, root);
            cdevs_run(list.after(tree(list.request())), tree).len() <= readable(entries).len()
        }),
{
    let names = readable(entries);
    let nums = cdev_numbers(names);
    let all = cdevs_in(tree, devices, root, nums);
    an_enumeration_finds_the_cdevs_there_are(tree, devices, root, nums, 0, seq![]);
    assert(nums.skip(0) =~= nums);
    assert(Seq::<CdevState>::empty() + all =~= all);
    cdevs_are_ordered_by_number();
    sorting_keeps_everything(all, by_num());
    lemma_cdevs_are_few(tree, devices, root, names, nums);
}

/// A cdev shows what it holds.
pub proof fn a_cdev_shows_its_fields(cdev: IommufdDev)
    ensures
        cdev@.num == cdev.num,
        cdev@.path == cdev.path@,
        cdev@.vendor == cdev.vendor,
        cdev@.device == cdev.device,
        cdev@.class == cdev.class,
{
}

/// A lookup or an enumeration of cdevs stands where its state says, and ends in
/// what it hands out.
pub proof fn where_a_lookup_of_cdevs_stands(
    look: LookUp,
    cdev: IommufdDev,
    all: EnumerateCdevs,
    found: Vec<IommufdDev>,
    i: int,
)
    requires
        0 <= i < found@.len(),
    ensures
        look_step(Step::Next(look)) == Step::<LookState, Option<CdevState>>::Next(look@),
        look_step(Step::Done(Some(cdev))) == Step::<LookState, Option<CdevState>>::Done(Some(cdev@)),
        look_step(Step::Done(None)) == Step::<LookState, Option<CdevState>>::Done(None),
        cdevs_step(Step::Next(all)) == Step::<CdevsState, Seq<CdevState>>::Next(all@),
        cdevs_step(Step::Done(found)) matches Step::Done(shown) && shown.len() == found@.len()
            && shown[i] == found@[i]@,
{
}

} // verus!
