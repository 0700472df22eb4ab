//! PCI functions by what sysfs tells of them.

use vstd::prelude::*;

use crate::attr::{a_printed_number_is_read, attr_number, parse_attr};
use crate::bdf::{
    address_id, address_to_id, canonical, canonical_is_one_plain_component, normalize_bdf,
};
use crate::cc::discover::{addresses, every_listed_address_is_found, find_addresses};
use crate::inquiry::{requests, Inquest, Inquiry};
use crate::kernel::{
    failed, link_in, read_in, told, told_length, told_names, told_text, ErrorKind, IoError, Op,
    Procedure, Reply, Request, Step, Told, Tree,
};
use crate::listing::{
    a_listing_is_read_up_to_its_first_fault, copy_error, first_error, first_unreadable,
    names_before_error, readable_before,
};
use crate::number::{
    a_decimal_number_is_what_it_says, a_padded_number_is_something, decimal, digit_of, hex,
    lemma_numeral_chars, padded, parse_signed, read_signed, what_is_no_signed_number_is_refused,
    zeros,
    NumberFault,
};
use crate::path::{
    a_path_ends_in_its_last_entry, entry_name, file_name, is_plain_component, join, joined_path,
};
use crate::pci_dev::{not_an_address, opening, refuse_address, OpenDev, PciDev};
use crate::pci_ids::{
    find_class, find_device, known_or, name_or, pci_class_name, pci_device_name, UNKNOWN_CLASS,
    UNKNOWN_DEVICE,
};
use crate::sort::{
    in_order, is_order, lemma_in_order_mapped, rank, sort, sorting_keeps_everything,
    sorting_loses_nothing, Ranked,
};
use crate::sysfs::{device_dir, devices_dir, the_bus_is_laid_out_so, Sysfs, SYSFS};
use crate::text::{
    chars, is_trim, same_text, texts, trim, trimmed, trimming_takes_off_what_is_around,
};

verus! {

/// The size of a conventional PCI config space.
pub const PCI_CONFIG_SPACE_SZ: u64 = 256;

/// One PCI function.
#[derive(Debug)]
pub struct PCIDevice {
    pub device_path: String,
    pub address: String,
    pub vendor: u16,
    pub class: u32,
    pub class_name: String,
    pub device: u16,
    pub device_name: String,
    pub driver: String,
    pub iommu_group: i64,
    pub numa_node: i64,
    /// Kept so a device opens under the tree it was found in.
    pub sysfs: Sysfs,
}

pub struct FunctionState {
    pub device_path: Seq<char>,
    pub address: Seq<char>,
    pub vendor: u16,
    pub class: u32,
    pub class_name: Seq<char>,
    pub device: u16,
    pub device_name: Seq<char>,
    pub driver: Seq<char>,
    pub iommu_group: i64,
    pub numa_node: i64,
    /// The sysfs it was found in.
    pub root: Seq<char>,
}

impl View for PCIDevice {
    type V = FunctionState;

    open spec fn view(&self) -> FunctionState {
        FunctionState {
            device_path: self.device_path@,
            address: self.address@,
            vendor: self.vendor,
            class: self.class,
            class_name: self.class_name@,
            device: self.device,
            device_name: self.device_name@,
            driver: self.driver@,
            iommu_group: self.iommu_group,
            numa_node: self.numa_node,
            root: self.sysfs.root(),
        }
    }
}

impl Clone for PCIDevice {
    fn clone(&self) -> (r: Self)
        ensures
            r@ == self@,
    {
        PCIDevice {
            device_path: self.device_path.clone(),
            address: self.address.clone(),
            vendor: self.vendor,
            class: self.class,
            class_name: self.class_name.clone(),
            device: self.device,
            device_name: self.device_name.clone(),
            driver: self.driver.clone(),
            iommu_group: self.iommu_group,
            numa_node: self.numa_node,
            sysfs: self.sysfs.clone(),
        }
    }
}

impl Default for PCIDevice {
    fn default() -> (r: Self)
        ensures
            r@ == (FunctionState {
                device_path: seq![],
                address: seq![],
                vendor: 0,
                class: 0,
                class_name: seq![],
                device: 0,
                device_name: seq![],
                driver: seq![],
                iommu_group: 0,
                numa_node: 0,
                root: SYSFS@,
            }),
    {
        let r: PCIDevice = PCIDevice {
            device_path: String::new(),
            address: String::new(),
            vendor: 0,
            class: 0,
            class_name: String::new(),
            device: 0,
            device_name: String::new(),
            driver: String::new(),
            iommu_group: 0,
            numa_node: 0,
            sysfs: Sysfs::default(),
        };
        proof {
            assert(r.device_path@ =~= seq![]);
            assert(r.address@ =~= seq![]);
            assert(r.class_name@ =~= seq![]);
            assert(r.device_name@ =~= seq![]);
            assert(r.driver@ =~= seq![]);
        }
        r
    }
}

impl PCIDevice {
    /// Map this device's BAR0 for register access. Enumeration reads
    /// attributes and needs no privilege; this needs root and wakes the
    /// device if it is suspended.
    pub fn open(&self) -> (r: Result<OpenDev, IoError>)
        ensures
            match r {
                Ok(open) => {
                    &&& canonical(self.address@) is Some
                    &&& open@ == opening(
                        devices_dir(self.sysfs.root()),
                        canonical(self.address@)->0,
                    )
                    &&& open.well_formed()
                },
                Err(err) => canonical(self.address@) is None && told(err) == not_an_address(
                    self.address@,
                ),
            },
    {
        PciDev::open_in(&self.sysfs, &self.address)
    }
}

// --- What sysfs tells of a function ------------------------------------------

/// What sysfs never prints, and no function can be made of.
#[derive(Clone, Copy, Debug, PartialEq, Eq, Structural)]
pub enum Malformed {
    /// A class that is no number.
    Class(NumberFault),
    /// A device id that is no number.
    Device(NumberFault),
    /// A driver link that leads to no entry.
    DriverLink,
    /// An IOMMU group link that leads to no entry.
    IommuLink,
}

/// Why a function could not be told.
#[derive(Debug)]
pub enum LookupError {
    Io(IoError),
    Malformed(Malformed),
}

/// A [`LookupError`] with the text it carries.
pub enum LookupFault {
    Io(Told),
    Malformed(Malformed),
}

impl View for LookupError {
    type V = LookupFault;

    open spec fn view(&self) -> LookupFault {
        match *self {
            LookupError::Io(err) => LookupFault::Io(told(err)),
            LookupError::Malformed(malformed) => LookupFault::Malformed(malformed),
        }
    }
}

/// What sysfs tells of a function.
pub struct Facts {
    pub vendor: Result<Seq<char>, Told>,
    pub class: Result<Seq<char>, Told>,
    pub device: Result<Seq<char>, Told>,
    /// Where the link to its driver leads.
    pub driver: Result<Seq<char>, Told>,
    /// Where the link to its IOMMU group leads.
    pub iommu_group: Result<Seq<char>, Told>,
    pub numa_node: Result<Seq<char>, Told>,
}

/// Who made a function.
pub open spec fn vendor_in(content: Result<Seq<char>, Told>) -> Result<u16, LookupFault> {
    match content {
        Err(err) => Err(LookupFault::Io(err)),
        Ok(content) => match attr_number(content, u16::MAX as int) {
            Ok(vendor) => Ok(vendor as u16),
            Err(fault) => Err(LookupFault::Io((ErrorKind::InvalidData, fault.text()))),
        },
    }
}

pub open spec fn class_in(content: Result<Seq<char>, Told>) -> Result<u32, LookupFault> {
    match content {
        Err(err) => Err(LookupFault::Io(err)),
        Ok(content) => match attr_number(content, u32::MAX as int) {
            Ok(class) => Ok(class as u32),
            Err(fault) => Err(LookupFault::Malformed(Malformed::Class(fault))),
        },
    }
}

pub open spec fn device_in(content: Result<Seq<char>, Told>) -> Result<u16, LookupFault> {
    match content {
        Err(err) => Err(LookupFault::Io(err)),
        Ok(content) => match attr_number(content, u16::MAX as int) {
            Ok(device) => Ok(device as u16),
            Err(fault) => Err(LookupFault::Malformed(Malformed::Device(fault))),
        },
    }
}

/// The driver that holds a function, empty where none does.
pub open spec fn driver_in(link: Result<Seq<char>, Told>) -> Result<Seq<char>, LookupFault> {
    match link {
        Err(_) => Ok(seq![]),
        Ok(target) => match entry_name(target) {
            Some(name) => Ok(name),
            None => Err(LookupFault::Malformed(Malformed::DriverLink)),
        },
    }
}

/// A number as 64 bits hold it, and -1 where there is none.
pub open spec fn number_or_minus_one(s: Seq<char>) -> i64 {
    match read_signed(s) {
        Some(value) => value as i64,
        None => (-1) as i64,
    }
}

pub open spec fn iommu_group_in(link: Result<Seq<char>, Told>) -> Result<i64, LookupFault> {
    match link {
        Err(_) => Ok((-1) as i64),
        Ok(target) => match entry_name(target) {
            Some(name) => Ok(number_or_minus_one(name)),
            None => Err(LookupFault::Malformed(Malformed::IommuLink)),
        },
    }
}

pub open spec fn numa_node_in(content: Result<Seq<char>, Told>) -> i64 {
    match content {
        Err(_) => (-1) as i64,
        Ok(content) => number_or_minus_one(trimmed(content)),
    }
}

/// What the PCI ID database calls a device.
pub open spec fn device_name_of(vendor: u16, device: u16) -> Seq<char> {
    name_or(pci_device_name(vendor, device), UNKNOWN_DEVICE@)
}

/// What the PCI ID database calls a class: it is keyed on the base class in the
/// top byte of the whole 24-bit code.
pub open spec fn class_name_of(class: u32) -> Seq<char> {
    name_or(pci_class_name((class >> 16) as u8), UNKNOWN_CLASS@)
}

/// The function at `address` below `root`, going by the facts; none where a
/// vendor is asked for that did not make it.
pub open spec fn function_of(
    root: Seq<char>,
    address: Seq<char>,
    wanted: Option<u16>,
    facts: Facts,
) -> Result<Option<FunctionState>, LookupFault> {
    match vendor_in(facts.vendor) {
        Err(err) => Err(err),
        Ok(vendor) => if wanted is Some && wanted != Some(vendor) {
            Ok(None)
        } else {
            match (
                class_in(facts.class),
                device_in(facts.device),
                driver_in(facts.driver),
                iommu_group_in(facts.iommu_group),
            ) {
                (Err(err), _, _, _) => Err(err),
                (_, Err(err), _, _) => Err(err),
                (_, _, Err(err), _) => Err(err),
                (_, _, _, Err(err)) => Err(err),
                (Ok(class), Ok(device), Ok(driver), Ok(iommu_group)) => Ok(
                    Some(
                        FunctionState {
                            device_path: joined_path(devices_dir(root), address),
                            address,
                            vendor,
                            class,
                            class_name: class_name_of(class),
                            device,
                            device_name: device_name_of(vendor, device),
                            driver,
                            iommu_group,
                            numa_node: numa_node_in(facts.numa_node),
                            root,
                        },
                    ),
                ),
            }
        },
    }
}

fn signed_or_minus_one(s: &[char]) -> (r: i64)
    ensures
        r == number_or_minus_one(s@),
{
    match parse_signed(s) {
        Some(value) => value,
        None => -1,
    }
}

/// What a lookup comes to.
pub type LookupEnd = Result<Option<FunctionState>, LookupFault>;

pub open spec fn lookup_end(r: Result<Option<PCIDevice>, LookupError>) -> LookupEnd {
    match r {
        Ok(Some(device)) => Ok(Some(device@)),
        Ok(None) => Ok(None),
        Err(err) => Err(err@),
    }
}

/// What came of something, with what its error says.
pub open spec fn faulted<T>(r: Result<T, LookupError>) -> Result<T, LookupFault> {
    match r {
        Ok(value) => Ok(value),
        Err(err) => Err(err@),
    }
}

fn read_vendor(content: Result<String, IoError>) -> (r: Result<u16, LookupError>)
    ensures
        faulted(r) == vendor_in(told_text(content)),
{
    match content {
        Err(err) => Err(LookupError::Io(err)),
        Ok(content) => match parse_attr(&content, 0xffff) {
            Ok(vendor) => Ok(vendor as u16),
            Err(fault) => Err(
                LookupError::Io(failed(ErrorKind::InvalidData, fault.message().to_string())),
            ),
        },
    }
}

fn read_class(content: Result<String, IoError>) -> (r: Result<u32, LookupError>)
    ensures
        faulted(r) == class_in(told_text(content)),
{
    match content {
        Err(err) => Err(LookupError::Io(err)),
        Ok(content) => match parse_attr(&content, 0xffff_ffff) {
            Ok(class) => Ok(class as u32),
            Err(fault) => Err(LookupError::Malformed(Malformed::Class(fault))),
        },
    }
}

fn read_device(content: Result<String, IoError>) -> (r: Result<u16, LookupError>)
    ensures
        faulted(r) == device_in(told_text(content)),
{
    match content {
        Err(err) => Err(LookupError::Io(err)),
        Ok(content) => match parse_attr(&content, 0xffff) {
            Ok(device) => Ok(device as u16),
            Err(fault) => Err(LookupError::Malformed(Malformed::Device(fault))),
        },
    }
}

fn read_driver(link: Result<String, IoError>) -> (r: Result<String, LookupError>)
    ensures
        driver_in(told_text(link)) == match r {
            Ok(driver) => Ok(driver@),
            Err(err) => Err(err@),
        },
{
    match link {
        Err(_) => {
            let none: String = String::new();
            assert(none@ =~= seq![]);
            Ok(none)
        },
        Ok(target) => match file_name(&target) {
            Some(name) => Ok(name),
            None => Err(LookupError::Malformed(Malformed::DriverLink)),
        },
    }
}

fn read_iommu_group(link: Result<String, IoError>) -> (r: Result<i64, LookupError>)
    ensures
        faulted(r) == iommu_group_in(told_text(link)),
{
    match link {
        Err(_) => Ok(-1),
        Ok(target) => match file_name(&target) {
            Some(name) => Ok(signed_or_minus_one(&chars(&name))),
            None => Err(LookupError::Malformed(Malformed::IommuLink)),
        },
    }
}

fn read_numa_node(content: Result<String, IoError>) -> (r: i64)
    ensures
        r == numa_node_in(told_text(content)),
{
    match content {
        Err(_) => -1,
        Ok(content) => signed_or_minus_one(trim(&chars(&content))),
    }
}

// --- Functions already looked up ---------------------------------------------

/// Functions already looked up, by address.
#[derive(Debug)]
pub struct DeviceCache {
    devices: Vec<PCIDevice>,
}

/// Functions by address.
pub type Cached = Map<Seq<char>, FunctionState>;

/// Whether no address occurs twice.
pub open spec fn has_no_twins(devices: Seq<PCIDevice>) -> bool {
    forall|i: int, j: int|
        0 <= i < j < devices.len() ==> (#[trigger] devices[i]).address@ != (
        #[trigger] devices[j]).address@
}

/// The functions in a list, by address.
pub open spec fn cached(devices: Seq<PCIDevice>) -> Cached
    decreases devices.len(),
{
    if devices.len() == 0 {
        Map::empty()
    } else {
        cached(devices.drop_last()).insert(devices.last().address@, devices.last()@)
    }
}

impl View for DeviceCache {
    type V = Cached;

    closed spec fn view(&self) -> Cached {
        cached(self.devices@)
    }
}

/// A function in a list is found by its address.
proof fn lemma_cached_at(devices: Seq<PCIDevice>, i: int)
    requires
        has_no_twins(devices),
        0 <= i < devices.len(),
    ensures
        cached(devices).dom().contains(devices[i].address@),
        cached(devices)[devices[i].address@] == devices[i]@,
    decreases devices.len(),
{
    if i < devices.len() - 1 {
        let front = devices.drop_last();
        assert(has_no_twins(front)) by {
            assert forall|a: int, b: int| 0 <= a < b < front.len() implies (
            #[trigger] front[a]).address@ != (#[trigger] front[b]).address@ by {
                assert(devices[a].address@ != devices[b].address@);
            }
        }
        lemma_cached_at(front, i);
        assert(devices[i].address@ != devices[devices.len() - 1].address@);
    }
}

/// What is found by an address is in the list.
proof fn lemma_cached_is_there(devices: Seq<PCIDevice>, address: Seq<char>) -> (i: int)
    requires
        cached(devices).dom().contains(address),
    ensures
        0 <= i < devices.len(),
        devices[i].address@ == address,
    decreases devices.len(),
{
    if devices.last().address@ == address {
        devices.len() - 1
    } else {
        lemma_cached_is_there(devices.drop_last(), address)
    }
}

/// A list without twins has as many addresses as functions.
proof fn lemma_cached_count(devices: Seq<PCIDevice>)
    requires
        has_no_twins(devices),
    ensures
        cached(devices).dom().finite(),
        cached(devices).dom().len() == devices.len(),
    decreases devices.len(),
{
    if devices.len() > 0 {
        let front = devices.drop_last();
        let last = devices.last().address@;
        assert forall|a: int, b: int| 0 <= a < b < front.len() implies (
        #[trigger] front[a]).address@ != (#[trigger] front[b]).address@ by {
            assert(devices[a].address@ != devices[b].address@);
        }
        lemma_cached_count(front);
        if cached(front).dom().contains(last) {
            let i = lemma_cached_is_there(front, last);
            assert(devices[i].address@ != devices[devices.len() - 1].address@);
        }
    }
}

/// A function put in the place of the one with its address.
proof fn lemma_cached_replaced(devices: Seq<PCIDevice>, at: int, device: PCIDevice)
    requires
        has_no_twins(devices),
        0 <= at < devices.len(),
        devices[at].address@ == device.address@,
    ensures
        has_no_twins(devices.update(at, device)),
        cached(devices.update(at, device)) == cached(devices).insert(device.address@, device@),
{
    let after = devices.update(at, device);
    assert forall|a: int, b: int| 0 <= a < b < after.len() implies (
    #[trigger] after[a]).address@ != (#[trigger] after[b]).address@ by {
        assert(devices[a].address@ != devices[b].address@);
    }
    let (l, r) = (cached(after), cached(devices).insert(device.address@, device@));
    assert forall|address: Seq<char>| #[trigger] l.dom().contains(address) <==> r.dom().contains(
        address,
    ) by {
        if l.dom().contains(address) {
            let i = lemma_cached_is_there(after, address);
            lemma_cached_at(devices, i);
            assert(devices[i].address@ == address);
        }
        if r.dom().contains(address) && address != device.address@ {
            let i = lemma_cached_is_there(devices, address);
            lemma_cached_at(after, i);
        }
        lemma_cached_at(after, at);
    }
    assert forall|address: Seq<char>| #[trigger] l.dom().contains(address) implies l[address]
        == r[address] by {
        let i = lemma_cached_is_there(after, address);
        lemma_cached_at(after, i);
        lemma_cached_at(devices, i);
    }
    assert(l =~= r);
}

/// Where the function at an address stands in a list.
fn find_cached(devices: &Vec<PCIDevice>, address: &str) -> (r: Option<usize>)
    requires
        has_no_twins(devices@),
    ensures
        match r {
            Some(at) => {
                &&& at < devices.len()
                &&& devices@[at as int].address@ == address@
                &&& cached(devices@).dom().contains(address@)
                &&& cached(devices@)[address@] == devices@[at as int]@
            },
            None => {
                &&& !cached(devices@).dom().contains(address@)
                &&& forall|i: int|
                    0 <= i < devices.len() ==> (#[trigger] devices@[i]).address@ != address@
            },
        },
{
    let mut i: usize = 0;
    while i < devices.len()
        invariant
            i <= devices.len(),
            has_no_twins(devices@),
            forall|j: int| 0 <= j < i ==> (#[trigger] devices@[j]).address@ != address@,
        decreases devices.len() - i,
    {
        if same_text(&devices[i].address, address) {
            proof {
                lemma_cached_at(devices@, i as int);
            }
            return Some(i);
        }
        i = i + 1;
    }
    proof {
        if cached(devices@).dom().contains(address@) {
            let at = lemma_cached_is_there(devices@, address@);
            assert(devices@[at].address@ != address@);
        }
    }
    None
}

impl Default for DeviceCache {
    fn default() -> (r: Self)
        ensures
            r@ == Cached::empty(),
    {
        DeviceCache { devices: Vec::new() }
    }
}

impl DeviceCache {
    #[verifier::type_invariant]
    spec fn keeps_one_of_each(self) -> bool {
        has_no_twins(self.devices@)
    }

    pub fn new() -> (r: Self)
        ensures
            r@ == Cached::empty(),
    {
        DeviceCache { devices: Vec::new() }
    }

    /// How many functions are here.
    pub fn len(&self) -> (r: usize)
        ensures
            r == self@.dom().len(),
    {
        proof {
            use_type_invariant(self);
            lemma_cached_count(self.devices@);
        }
        self.devices.len()
    }

    /// The function at an address, if it is here.
    pub fn get(&self, address: &str) -> (r: Option<PCIDevice>)
        ensures
            match r {
                Some(device) => self@.dom().contains(address@) && self@[address@] == device@,
                None => !self@.dom().contains(address@),
            },
    {
        proof {
            use_type_invariant(self);
        }
        match find_cached(&self.devices, address) {
            Some(at) => Some(self.devices[at].clone()),
            None => None,
        }
    }

    /// Keep a function, in the place of an older one with its address.
    pub fn insert(&mut self, device: PCIDevice)
        ensures
            final(self)@ == old(self)@.insert(device.address@, device@),
    {
        proof {
            use_type_invariant(&*self);
        }
        let mut devices: Vec<PCIDevice> = Vec::new();
        std::mem::swap(&mut devices, &mut self.devices);
        let ghost before = devices@;
        match find_cached(&devices, &device.address) {
            Some(at) => {
                proof {
                    lemma_cached_replaced(before, at as int, device);
                }
                devices.set(at, device);
            },
            None => {
                devices.push(device);
                assert(devices@.drop_last() =~= before);
                assert forall|a: int, b: int| 0 <= a < b < devices@.len() implies (
                #[trigger] devices@[a]).address@ != (#[trigger] devices@[b]).address@ by {
                    assert(before[a].address@ != device.address@);
                    if b < before.len() {
                        assert(before[a].address@ != before[b].address@);
                    }
                }
            },
        }
        self.devices = devices;
    }
}

// --- One function ------------------------------------------------------------

/// What of a function is being read.
#[derive(Clone, Copy, Debug, PartialEq, Eq, Structural)]
pub enum FactPhase {
    Vendor,
    Class,
    Device,
    Driver,
    IommuGroup,
    NumaNode,
}

/// The looking up of a function, and the functions already looked up.
#[derive(Debug)]
pub struct FunctionFacts {
    known: PCIDevice,
    wanted: Option<u16>,
    phase: FactPhase,
    cache: DeviceCache,
}

pub struct FactsState {
    /// What is known of the function so far.
    pub known: FunctionState,
    /// The vendor it must be of, if any.
    pub wanted: Option<u16>,
    pub phase: FactPhase,
}

impl View for FunctionFacts {
    type V = FactsState;

    closed spec fn view(&self) -> FactsState {
        FactsState { known: self.known@, wanted: self.wanted, phase: self.phase }
    }
}

impl FunctionFacts {
    pub closed spec fn cache(&self) -> Cached {
        self.cache@
    }
}

/// The looking up of the function at an address, about to start.
pub open spec fn facts_of(root: Seq<char>, address: Seq<char>, wanted: Option<u16>) -> FactsState {
    FactsState {
        known: FunctionState {
            device_path: joined_path(devices_dir(root), address),
            address,
            vendor: 0,
            class: 0,
            class_name: seq![],
            device: 0,
            device_name: seq![],
            driver: seq![],
            iommu_group: 0,
            numa_node: 0,
            root,
        },
        wanted,
        phase: FactPhase::Vendor,
    }
}

impl FactsState {
    pub open spec fn request(self) -> Request {
        let path = self.known.device_path;
        match self.phase {
            FactPhase::Vendor => Request::ReadText(joined_path(path, "vendor"@)),
            FactPhase::Class => Request::ReadText(joined_path(path, "class"@)),
            FactPhase::Device => Request::ReadText(joined_path(path, "device"@)),
            FactPhase::Driver => Request::ReadLink(joined_path(path, "driver"@)),
            FactPhase::IommuGroup => Request::ReadLink(joined_path(path, "iommu_group"@)),
            FactPhase::NumaNode => Request::ReadText(joined_path(path, "numa_node"@)),
        }
    }

    pub open spec fn to(self, known: FunctionState, phase: FactPhase) -> Step<
        FactsState,
        LookupEnd,
    > {
        Step::Next(FactsState { known, phase, ..self })
    }

    /// Where it goes from an answer: nothing more is asked of a function that
    /// is another vendor's or cannot be told.
    pub open spec fn after(self, reply: Reply) -> Step<FactsState, LookupEnd> {
        let known = self.known;
        let content = told_text(reply->Text_0);
        match self.phase {
            FactPhase::Vendor => match vendor_in(content) {
                Err(err) => Step::Done(Err(err)),
                Ok(vendor) => if self.wanted is Some && self.wanted != Some(vendor) {
                    Step::Done(Ok(None))
                } else {
                    self.to(FunctionState { vendor, ..known }, FactPhase::Class)
                },
            },
            FactPhase::Class => match class_in(content) {
                Err(err) => Step::Done(Err(err)),
                Ok(class) => self.to(
                    FunctionState { class, class_name: class_name_of(class), ..known },
                    FactPhase::Device,
                ),
            },
            FactPhase::Device => match device_in(content) {
                Err(err) => Step::Done(Err(err)),
                Ok(device) => self.to(
                    FunctionState {
                        device,
                        device_name: device_name_of(known.vendor, device),
                        ..known
                    },
                    FactPhase::Driver,
                ),
            },
            FactPhase::Driver => match driver_in(content) {
                Err(err) => Step::Done(Err(err)),
                Ok(driver) => self.to(FunctionState { driver, ..known }, FactPhase::IommuGroup),
            },
            FactPhase::IommuGroup => match iommu_group_in(content) {
                Err(err) => Step::Done(Err(err)),
                Ok(iommu_group) => self.to(
                    FunctionState { iommu_group, ..known },
                    FactPhase::NumaNode,
                ),
            },
            FactPhase::NumaNode => Step::Done(
                Ok(Some(FunctionState { numa_node: numa_node_in(content), ..known })),
            ),
        }
    }
}

/// What a lookup comes to, and the cache after it.
pub type Lookup = (Result<Option<PCIDevice>, LookupError>, DeviceCache);

/// What a lookup leaves in a cache.
pub open spec fn cache_after(cache: Cached, address: Seq<char>, end: LookupEnd) -> Cached {
    match end {
        Ok(Some(function)) => cache.insert(address, function),
        _ => cache,
    }
}

/// Whether `step` is where a lookup stands once resumed with `reply`.
pub open spec fn looks_on(
    facts: FunctionFacts,
    reply: Reply,
    step: Step<FunctionFacts, Lookup>,
) -> bool {
    match (facts@.after(reply), step) {
        (Step::Next(state), Step::Next(next)) => next@ == state && next.cache() == facts.cache(),
        (Step::Done(end), Step::Done((r, cache))) => {
            &&& lookup_end(r) == end
            &&& cache@ == cache_after(facts.cache(), facts@.known.address, end)
        },
        _ => false,
    }
}

impl FunctionFacts {
    fn start(sysfs: &Sysfs, address: &str, wanted: Option<u16>, cache: DeviceCache) -> (r: Self)
        ensures
            r@ == facts_of(sysfs.root(), address@, wanted),
            r.cache() == cache@,
    {
        let known: PCIDevice = PCIDevice {
            device_path: join(&sysfs.devices(), address),
            address: address.to_string(),
            sysfs: sysfs.clone(),
            ..PCIDevice::default()
        };
        FunctionFacts { known, wanted, phase: FactPhase::Vendor, cache }
    }

    fn fail(self, err: LookupError) -> (step: Step<FunctionFacts, Lookup>)
        ensures
            step matches Step::Done((r, cache)) && lookup_end(r) == Err::<
                Option<FunctionState>,
                LookupFault,
            >(err@) && cache@ == self.cache(),
    {
        Step::Done((Err(err), self.cache))
    }

    fn to(self, known: PCIDevice, phase: FactPhase) -> (step: Step<FunctionFacts, Lookup>)
        ensures
            step matches Step::Next(next) && Step::<FactsState, LookupEnd>::Next(next@) == self@.to(
                known@,
                phase,
            ) && next.cache() == self.cache(),
    {
        Step::Next(FunctionFacts { known, phase, ..self })
    }
}

impl Procedure for FunctionFacts {
    type Output = Lookup;

    open spec fn well_formed(&self) -> bool {
        true
    }

    open spec fn request(&self) -> Request {
        self@.request()
    }

    fn op(&self) -> (op: Op) {
        let ghost _now = (self.well_formed(), self.request());
        let path: &str = self.known.device_path.as_str();
        match self.phase {
            FactPhase::Vendor => Op::ReadText(join(path, "vendor")),
            FactPhase::Class => Op::ReadText(join(path, "class")),
            FactPhase::Device => Op::ReadText(join(path, "device")),
            FactPhase::Driver => Op::ReadLink(join(path, "driver")),
            FactPhase::IommuGroup => Op::ReadLink(join(path, "iommu_group")),
            FactPhase::NumaNode => Op::ReadText(join(path, "numa_node")),
        }
    }

    fn resume(self, reply: Reply) -> (step: Step<Self, Self::Output>)
        ensures
            looks_on(self, reply, step),
    {
        let ghost _now = (self.well_formed(), self.request());
        let content: Result<String, IoError> = match reply {
            Reply::Text(content) => content,
            _ => Ok(String::new()),
        };
        let mut known: PCIDevice = self.known.clone();
        match self.phase {
            FactPhase::Vendor => match read_vendor(content) {
                Err(err) => self.fail(err),
                Ok(vendor) => match self.wanted {
                    Some(wanted) if wanted != vendor => Step::Done((Ok(None), self.cache)),
                    _ => {
                        known.vendor = vendor;
                        self.to(known, FactPhase::Class)
                    },
                },
            },
            FactPhase::Class => match read_class(content) {
                Err(err) => self.fail(err),
                Ok(class) => {
                    known.class = class;
                    known.class_name = known_or(
                        find_class(#[verifier::truncate] ((class >> 16) as u8)),
                        UNKNOWN_CLASS,
                    );
                    self.to(known, FactPhase::Device)
                },
            },
            FactPhase::Device => match read_device(content) {
                Err(err) => self.fail(err),
                Ok(device) => {
                    known.device = device;
                    known.device_name = known_or(
                        find_device(known.vendor, device),
                        UNKNOWN_DEVICE,
                    );
                    self.to(known, FactPhase::Driver)
                },
            },
            FactPhase::Driver => match read_driver(content) {
                Err(err) => self.fail(err),
                Ok(driver) => {
                    known.driver = driver;
                    self.to(known, FactPhase::IommuGroup)
                },
            },
            FactPhase::IommuGroup => match read_iommu_group(content) {
                Err(err) => self.fail(err),
                Ok(iommu_group) => {
                    known.iommu_group = iommu_group;
                    self.to(known, FactPhase::NumaNode)
                },
            },
            FactPhase::NumaNode => {
                known.numa_node = read_numa_node(content);
                let mut cache: DeviceCache = self.cache;
                cache.insert(known.clone());
                Step::Done((Ok(Some(known)), cache))
            },
        }
    }
}

// --- All functions -----------------------------------------------------------

pub open spec fn functions(v: Seq<PCIDevice>) -> Seq<FunctionState> {
    v.map_values(|device: PCIDevice| device@)
}

/// What looking all functions up comes to.
pub type FunctionsEnd = Result<Seq<FunctionState>, LookupFault>;

pub open spec fn functions_end(r: Result<Vec<PCIDevice>, LookupError>) -> FunctionsEnd {
    match r {
        Ok(devices) => Ok(functions(devices@)),
        Err(err) => Err(err@),
    }
}

/// Functions by address.
pub open spec fn by_address() -> spec_fn(FunctionState, FunctionState) -> bool {
    |a: FunctionState, b: FunctionState| address_id(a.address) < address_id(b.address)
}

/// Addresses order the functions, so that what sorting keeps, it keeps of
/// them.
pub proof fn functions_are_ordered_by_address()
    ensures
        is_order(by_address()),
{
}

impl Ranked for PCIDevice {
    open spec fn ranks_before(self, other: Self) -> bool {
        address_id(self.address@) < address_id(other.address@)
    }

    fn is_before(&self, other: &Self) -> (r: bool) {
        address_to_id(&self.address) < address_to_id(&other.address)
    }
}

/// The functions to look up.
#[derive(Debug)]
pub struct Roll {
    sysfs: Sysfs,
    vendor: Option<u16>,
    addresses: Vec<String>,
    unreadable: Option<IoError>,
}

pub struct RollState {
    pub root: Seq<char>,
    /// The vendor they must be of, if any.
    pub vendor: Option<u16>,
    pub addresses: Seq<Seq<char>>,
    /// What came of the entry after them, if it could not be read.
    pub unreadable: Option<Told>,
}

impl View for Roll {
    type V = RollState;

    closed spec fn view(&self) -> RollState {
        RollState {
            root: self.sysfs.root(),
            vendor: self.vendor,
            addresses: texts(self.addresses@),
            unreadable: match self.unreadable {
                Some(err) => Some(told(err)),
                None => None,
            },
        }
    }
}

/// The looking up of every function there is.
#[derive(Debug)]
pub enum GetAllDevices {
    /// Listing them, in a tree, for a vendor.
    Listing(Sysfs, Option<u16>),
    /// Looking them up one after the other: which of them it is about, and
    /// those already found.
    Looking(Roll, usize, Vec<PCIDevice>, FunctionFacts),
}

pub enum FunctionsState {
    Listing(Seq<char>, Option<u16>),
    Looking(RollState, int, Seq<FunctionState>, Cached, FactsState),
}

impl View for GetAllDevices {
    type V = FunctionsState;

    open spec fn view(&self) -> FunctionsState {
        match *self {
            GetAllDevices::Listing(sysfs, vendor) => FunctionsState::Listing(sysfs.root(), vendor),
            GetAllDevices::Looking(roll, at, found, facts) => FunctionsState::Looking(
                roll@,
                at as int,
                functions(found@),
                facts.cache(),
                facts@,
            ),
        }
    }
}

impl FunctionsState {
    pub open spec fn request(self) -> Request {
        match self {
            FunctionsState::Listing(root, _) => Request::ListDir(devices_dir(root)),
            FunctionsState::Looking(_, _, _, _, facts) => facts.request(),
        }
    }

    /// Look the functions up from one of the addresses on; one that has been
    /// looked up already is as it was then.
    pub open spec fn look_from(
        roll: RollState,
        at: int,
        found: Seq<FunctionState>,
        cache: Cached,
    ) -> Step<FunctionsState, FunctionsEnd>
        decreases roll.addresses.len() - at,
    {
        if at >= roll.addresses.len() {
            match roll.unreadable {
                Some(err) => Step::Done(Err(LookupFault::Io(err))),
                None => Step::Done(Ok(in_order(found, by_address()))),
            }
        } else {
            let address = roll.addresses[at];
            if cache.dom().contains(address) {
                Self::look_from(roll, at + 1, found.push(cache[address]), cache)
            } else {
                let facts = facts_of(roll.root, address, roll.vendor);
                Step::Next(FunctionsState::Looking(roll, at, found, cache, facts))
            }
        }
    }

    /// Where it goes once a function has been looked up: one that cannot be
    /// told is left out, and so is one that is another vendor's.
    pub open spec fn looked(
        roll: RollState,
        at: int,
        found: Seq<FunctionState>,
        cache: Cached,
        end: LookupEnd,
    ) -> Step<FunctionsState, FunctionsEnd> {
        match end {
            Err(LookupFault::Malformed(malformed)) => Step::Done(
                Err(LookupFault::Malformed(malformed)),
            ),
            Ok(Some(function)) => Self::look_from(
                roll,
                at + 1,
                found.push(function),
                cache.insert(roll.addresses[at], function),
            ),
            _ => Self::look_from(roll, at + 1, found, cache),
        }
    }

    pub open spec fn after(self, reply: Reply) -> Step<FunctionsState, FunctionsEnd> {
        match self {
            FunctionsState::Listing(root, vendor) => match told_names(reply->Names_0) {
                Err(err) => Step::Done(Err(LookupFault::Io(err))),
                Ok(entries) => Self::look_from(
                    RollState {
                        root,
                        vendor,
                        addresses: addresses(readable_before(entries)),
                        unreadable: first_unreadable(entries),
                    },
                    0,
                    seq![],
                    Map::empty(),
                ),
            },
            FunctionsState::Looking(roll, at, found, cache, facts) => match facts.after(reply) {
                Step::Next(facts) => Step::Next(
                    FunctionsState::Looking(roll, at, found, cache, facts),
                ),
                Step::Done(end) => Self::looked(roll, at, found, cache, end),
            },
        }
    }
}

pub open spec fn functions_step(
    step: Step<GetAllDevices, Result<Vec<PCIDevice>, LookupError>>,
) -> Step<FunctionsState, FunctionsEnd> {
    match step {
        Step::Next(all) => Step::Next(all@),
        Step::Done(r) => Step::Done(functions_end(r)),
    }
}

impl GetAllDevices {
    /// Whether it is about one of the functions.
    pub open spec fn is_complete(&self) -> bool {
        match *self {
            GetAllDevices::Listing(_, _) => true,
            GetAllDevices::Looking(roll, at, _, facts) => at < roll@.addresses.len()
                && facts@.known.address == roll@.addresses[at as int],
        }
    }

    fn look_from(roll: Roll, from: usize, seen: Vec<PCIDevice>, cache: DeviceCache) -> (step: Step<
        GetAllDevices,
        Result<Vec<PCIDevice>, LookupError>,
    >)
        requires
            from <= roll@.addresses.len(),
        ensures
            functions_step(step) == FunctionsState::look_from(
                roll@,
                from as int,
                functions(seen@),
                cache@,
            ),
            step matches Step::Next(next) ==> next.is_complete(),
    {
        let ghost start = FunctionsState::look_from(roll@, from as int, functions(seen@), cache@);
        let mut at: usize = from;
        let mut found: Vec<PCIDevice> = seen;
        while at < roll.addresses.len()
            invariant
                at <= roll.addresses.len(),
                roll@.addresses == texts(roll.addresses@),
                start == FunctionsState::look_from(
                    roll@,
                    from as int,
                    functions(seen@),
                    cache@,
                ),
                start == FunctionsState::look_from(roll@, at as int, functions(found@), cache@),
            decreases roll.addresses.len() - at,
        {
            assert(roll@.addresses[at as int] == roll.addresses@[at as int]@);
            match cache.get(&roll.addresses[at]) {
                Some(device) => {
                    let ghost before = found@;
                    let ghost kept = device@;
                    found.push(device);
                    assert(functions(found@) =~= functions(before).push(kept));
                },
                None => {
                    let facts: FunctionFacts = FunctionFacts::start(
                        &roll.sysfs,
                        &roll.addresses[at],
                        roll.vendor,
                        cache,
                    );
                    return Step::Next(GetAllDevices::Looking(roll, at, found, facts));
                },
            }
            at = at + 1;
        }
        match roll.unreadable {
            Some(err) => Step::Done(Err(LookupError::Io(err))),
            None => {
                proof {
                    lemma_in_order_mapped(
                        found@,
                        rank::<PCIDevice>(),
                        |device: PCIDevice| device@,
                        by_address(),
                    );
                }
                Step::Done(Ok(sort(found)))
            },
        }
    }
}

impl Procedure for GetAllDevices {
    type Output = Result<Vec<PCIDevice>, LookupError>;

    open spec fn well_formed(&self) -> bool {
        self.is_complete()
    }

    open spec fn request(&self) -> Request {
        self@.request()
    }

    fn op(&self) -> (op: Op) {
        let ghost _now = (self.well_formed(), self.request());
        match self {
            GetAllDevices::Listing(sysfs, _) => Op::ListDir(sysfs.devices()),
            GetAllDevices::Looking(_, _, _, facts) => facts.op(),
        }
    }

    fn resume(self, reply: Reply) -> (step: Step<Self, Self::Output>)
        ensures
            functions_step(step) == self@.after(reply),
    {
        let ghost _now = (self.well_formed(), self.request());
        match self {
            GetAllDevices::Listing(sysfs, vendor) => match &reply {
                Reply::Names(Ok(entries)) => {
                    let roll: Roll = Roll {
                        sysfs,
                        vendor,
                        addresses: find_addresses(&names_before_error(entries)),
                        unreadable: first_error(entries),
                    };
                    let found: Vec<PCIDevice> = Vec::new();
                    assert(functions(found@) =~= seq![]);
                    Self::look_from(roll, 0, found, DeviceCache::new())
                },
                Reply::Names(Err(err)) => Step::Done(Err(LookupError::Io(copy_error(err)))),
                _ => Step::Done(Ok(Vec::new())),
            },
            GetAllDevices::Looking(roll, at, found, facts) => {
                assert(at < roll.addresses.len());
                match facts.resume(reply) {
                    Step::Next(facts) => Step::Next(
                        GetAllDevices::Looking(roll, at, found, facts),
                    ),
                    Step::Done((end, cache)) => match end {
                        Err(LookupError::Malformed(malformed)) => Step::Done(
                            Err(LookupError::Malformed(malformed)),
                        ),
                        Err(LookupError::Io(_)) => Self::look_from(roll, at + 1, found, cache),
                        Ok(None) => Self::look_from(roll, at + 1, found, cache),
                        Ok(Some(device)) => {
                            let ghost before = found@;
                            let ghost seen = device@;
                            let mut found: Vec<PCIDevice> = found;
                            found.push(device);
                            assert(functions(found@) =~= functions(before).push(seen));
                            Self::look_from(roll, at + 1, found, cache)
                        },
                    },
                }
            },
        }
    }
}

// --- What a tree tells -------------------------------------------------------

/// Looking functions up changes nothing.
pub proof fn looking_for_functions_changes_nothing(state: FunctionsState, facts: FactsState)
    ensures
        state.request().is_question(),
        facts.request().is_question(),
{
}

/// What a tree tells of a function.
pub open spec fn facts_in(tree: Tree, root: Seq<char>, address: Seq<char>) -> Facts {
    let path = joined_path(devices_dir(root), address);
    Facts {
        vendor: read_in(tree, joined_path(path, "vendor"@)),
        class: read_in(tree, joined_path(path, "class"@)),
        device: read_in(tree, joined_path(path, "device"@)),
        driver: link_in(tree, joined_path(path, "driver"@)),
        iommu_group: link_in(tree, joined_path(path, "iommu_group"@)),
        numa_node: read_in(tree, joined_path(path, "numa_node"@)),
    }
}

/// How many facts are still to be read after one.
pub open spec fn facts_left(phase: FactPhase) -> nat {
    match phase {
        FactPhase::Vendor => 5,
        FactPhase::Class => 4,
        FactPhase::Device => 3,
        FactPhase::Driver => 2,
        FactPhase::IommuGroup => 1,
        FactPhase::NumaNode => 0,
    }
}

/// What looking a function up comes to in a tree.
pub open spec fn facts_run(facts: FactsState, tree: Tree) -> LookupEnd
    decreases facts_left(facts.phase),
{
    match facts.after(tree(facts.request())) {
        Step::Done(end) => end,
        Step::Next(next) => if facts_left(next.phase) < facts_left(facts.phase) {
            facts_run(next, tree)
        } else {
            Ok(None)
        },
    }
}

/// In a tree that does not change, a lookup comes to the function that the tree
/// tells of.
pub proof fn a_lookup_finds_the_function_there_is(
    tree: Tree,
    root: Seq<char>,
    address: Seq<char>,
    wanted: Option<u16>,
)
    ensures
        facts_run(facts_of(root, address, wanted), tree) == function_of(
            root,
            address,
            wanted,
            facts_in(tree, root, address),
        ),
{
    reveal_with_fuel(facts_run, 6);
}

/// The functions at some addresses, going by a tree.
pub open spec fn functions_in(
    tree: Tree,
    root: Seq<char>,
    vendor: Option<u16>,
    addresses: Seq<Seq<char>>,
) -> FunctionsEnd
    decreases addresses.len(),
{
    if addresses.len() == 0 {
        Ok(seq![])
    } else {
        let address = addresses[0];
        let rest = functions_in(tree, root, vendor, addresses.drop_first());
        match function_of(root, address, vendor, facts_in(tree, root, address)) {
            Err(LookupFault::Malformed(malformed)) => Err(LookupFault::Malformed(malformed)),
            Ok(Some(function)) => match rest {
                Ok(rest) => Ok(seq![function] + rest),
                Err(err) => Err(err),
            },
            _ => rest,
        }
    }
}

/// How many functions, and how many facts about the one under way, are left.
pub open spec fn functions_left(state: FunctionsState) -> (nat, nat) {
    match state {
        FunctionsState::Listing(_, _) => (0, 0),
        FunctionsState::Looking(roll, at, _, _, facts) => (
            (roll.addresses.len() - at) as nat,
            facts_left(facts.phase),
        ),
    }
}

/// What looking functions up comes to in a tree, once they are listed.
pub open spec fn functions_run(step: Step<FunctionsState, FunctionsEnd>, tree: Tree) -> FunctionsEnd
    decreases
            (match step {
                Step::Next(state) => functions_left(state).0 + 1,
                Step::Done(_) => 0,
            }),
            (match step {
                Step::Next(state) => functions_left(state).1,
                Step::Done(_) => 0,
            }),
{
    match step {
        Step::Done(end) => end,
        Step::Next(state) => {
            let next = state.after(tree(state.request()));
            let (before, after) = (
                functions_left(state),
                match next {
                    Step::Next(next) => functions_left(next),
                    Step::Done(_) => (0, 0),
                },
            );
            if next is Done || after.0 < before.0 || (after.0 == before.0 && after.1 < before.1) {
                functions_run(next, tree)
            } else {
                Ok(seq![])
            }
        },
    }
}

proof fn lemma_look_from_goes_on(
    roll: RollState,
    at: int,
    found: Seq<FunctionState>,
    cache: Cached,
)
    ensures
        FunctionsState::look_from(roll, at, found, cache) matches Step::Next(next) ==> {
            &&& next matches FunctionsState::Looking(_, then, _, _, _)
            &&& at <= then < roll.addresses.len()
            &&& functions_left(next).0 == roll.addresses.len() - then
        },
    decreases roll.addresses.len() - at,
{
    if at < roll.addresses.len() && cache.dom().contains(roll.addresses[at]) {
        lemma_look_from_goes_on(roll, at + 1, found.push(cache[roll.addresses[at]]), cache);
    }
}

proof fn lemma_functions_run_looks(
    roll: RollState,
    at: int,
    found: Seq<FunctionState>,
    cache: Cached,
    facts: FactsState,
    tree: Tree,
)
    requires
        0 <= at < roll.addresses.len(),
    ensures
        functions_run(Step::Next(FunctionsState::Looking(roll, at, found, cache, facts)), tree)
            == functions_run(
            FunctionsState::looked(roll, at, found, cache, facts_run(facts, tree)),
            tree,
        ),
    decreases facts_left(facts.phase),
{
    match facts.after(tree(facts.request())) {
        Step::Next(next) => {
            assert(facts_left(next.phase) < facts_left(facts.phase));
            lemma_functions_run_looks(roll, at, found, cache, next, tree);
        },
        Step::Done(end) => {
            lemma_look_from_goes_on(roll, at + 1, found, cache);
            if let Ok(Some(function)) = end {
                lemma_look_from_goes_on(
                    roll,
                    at + 1,
                    found.push(function),
                    cache.insert(roll.addresses[at], function),
                );
            }
        },
    }
}

/// Whether what is in a cache is what a tree tells.
pub open spec fn is_cached_from(
    cache: Cached,
    tree: Tree,
    root: Seq<char>,
    vendor: Option<u16>,
) -> bool {
    forall|address: Seq<char>| #[trigger]
        cache.dom().contains(address) ==> function_of(
            root,
            address,
            vendor,
            facts_in(tree, root, address),
        ) == Ok::<Option<FunctionState>, LookupFault>(Some(cache[address]))
}

/// In a tree that does not change, an enumeration comes to the functions that
/// the tree tells of, by address, and to nothing else; the cache changes
/// nothing about that. One that no function can be made of ends it, and so does
/// an entry that cannot be read.
pub proof fn an_enumeration_finds_the_functions_there_are(
    tree: Tree,
    roll: RollState,
    at: int,
    found: Seq<FunctionState>,
    cache: Cached,
)
    requires
        0 <= at <= roll.addresses.len(),
        is_cached_from(cache, tree, roll.root, roll.vendor),
    ensures
        functions_run(FunctionsState::look_from(roll, at, found, cache), tree) == match (
            functions_in(tree, roll.root, roll.vendor, roll.addresses.skip(at)),
            roll.unreadable,
        ) {
            (Err(err), _) => Err(err),
            (Ok(_), Some(err)) => Err(LookupFault::Io(err)),
            (Ok(more), None) => Ok(in_order(found + more, by_address())),
        },
    decreases roll.addresses.len() - at,
{
    if at == roll.addresses.len() {
        assert(roll.addresses.skip(at) =~= seq![]);
        assert(found + Seq::<FunctionState>::empty() =~= found);
    } else {
        let address = roll.addresses[at];
        let rest = roll.addresses.skip(at);
        assert(rest.drop_first() =~= roll.addresses.skip(at + 1));
        assert(rest[0] == address);
        let later = functions_in(tree, roll.root, roll.vendor, roll.addresses.skip(at + 1));
        let end = function_of(roll.root, address, roll.vendor, facts_in(tree, roll.root, address));
        a_lookup_finds_the_function_there_is(tree, roll.root, address, roll.vendor);
        if !cache.dom().contains(address) {
            lemma_functions_run_looks(
                roll,
                at,
                found,
                cache,
                facts_of(roll.root, address, roll.vendor),
                tree,
            );
        }
        match end {
            Ok(Some(function)) => {
                let kept = cache.insert(address, function);
                if cache.dom().contains(address) {
                    assert(kept =~= cache);
                }
                an_enumeration_finds_the_functions_there_are(
                    tree,
                    roll,
                    at + 1,
                    found.push(function),
                    kept,
                );
                if let Ok(later) = later {
                    assert(found.push(function) + later =~= found + (seq![function] + later));
                }
            },
            _ => {
                an_enumeration_finds_the_functions_there_are(tree, roll, at + 1, found, cache);
            },
        }
    }
}

// --- What is found -----------------------------------------------------------

/// Whether a function is one of those asked for: at one of the addresses, below
/// the root, and of the vendor if there is one.
pub open spec fn is_asked_for(
    function: FunctionState,
    root: Seq<char>,
    vendor: Option<u16>,
    addresses: Seq<Seq<char>>,
) -> bool {
    &&& addresses.contains(function.address)
    &&& function.root == root
    &&& function.device_path == joined_path(devices_dir(root), function.address)
    &&& vendor is Some ==> vendor == Some(function.vendor)
}

/// Whether an enumeration has found only what is asked for so far.
pub open spec fn keeps_to_what_is_asked_for(state: FunctionsState) -> bool {
    match state {
        FunctionsState::Listing(_, _) => true,
        FunctionsState::Looking(roll, at, found, cache, facts) => {
            &&& 0 <= at < roll.addresses.len()
            &&& forall|i: int|
                0 <= i < found.len() ==> is_asked_for(
                    #[trigger] found[i],
                    roll.root,
                    roll.vendor,
                    roll.addresses,
                )
            &&& forall|address: Seq<char>| #[trigger]
                cache.dom().contains(address) ==> is_asked_for(
                    cache[address],
                    roll.root,
                    roll.vendor,
                    roll.addresses,
                )
            &&& facts.wanted == roll.vendor
            &&& facts.known.address == roll.addresses[at]
            &&& facts.phase == FactPhase::Vendor || is_asked_for(
                facts.known,
                roll.root,
                roll.vendor,
                roll.addresses,
            )
            &&& facts.known.root == roll.root
            &&& facts.known.device_path == joined_path(
                devices_dir(roll.root),
                facts.known.address,
            )
        },
    }
}

/// The root, the vendor and the addresses that an enumeration goes by.
pub open spec fn asked_of(state: FunctionsState, reply: Reply) -> (
    Seq<char>,
    Option<u16>,
    Seq<Seq<char>>,
) {
    match state {
        FunctionsState::Listing(root, vendor) => (
            root,
            vendor,
            match told_names(reply->Names_0) {
                Ok(entries) => addresses(readable_before(entries)),
                Err(_) => seq![],
            },
        ),
        FunctionsState::Looking(roll, _, _, _, _) => (roll.root, roll.vendor, roll.addresses),
    }
}

proof fn lemma_only_what_is_asked_for(
    roll: RollState,
    at: int,
    found: Seq<FunctionState>,
    cache: Cached,
)
    requires
        0 <= at,
        forall|i: int|
            0 <= i < found.len() ==> is_asked_for(
                #[trigger] found[i],
                roll.root,
                roll.vendor,
                roll.addresses,
            ),
        forall|address: Seq<char>| #[trigger]
            cache.dom().contains(address) ==> is_asked_for(
                cache[address],
                roll.root,
                roll.vendor,
                roll.addresses,
            ),
    ensures
        match FunctionsState::look_from(roll, at, found, cache) {
            Step::Next(next) => {
                &&& keeps_to_what_is_asked_for(next)
                &&& next matches FunctionsState::Looking(then, _, _, _, _) && then == roll
            },
            Step::Done(Ok(end)) => forall|i: int|
                0 <= i < end.len() ==> is_asked_for(
                    #[trigger] end[i],
                    roll.root,
                    roll.vendor,
                    roll.addresses,
                ),
            Step::Done(Err(_)) => true,
        },
    decreases roll.addresses.len() - at,
{
    if at < roll.addresses.len() {
        let address = roll.addresses[at];
        if cache.dom().contains(address) {
            lemma_only_what_is_asked_for(roll, at + 1, found.push(cache[address]), cache);
        }
    } else {
        let end = in_order(found, by_address());
        functions_are_ordered_by_address();
        sorting_keeps_everything(found, by_address());
        assert forall|i: int| 0 <= i < end.len() implies is_asked_for(
            #[trigger] end[i],
            roll.root,
            roll.vendor,
            roll.addresses,
        ) by {
            broadcast use vstd::seq_lib::group_to_multiset_ensures;

            assert(end.contains(end[i]));
            assert(end.to_multiset().count(end[i]) > 0);
            assert(found.contains(end[i]));
            let j = choose|j: int| 0 <= j < found.len() && found[j] == end[i];
            assert(is_asked_for(found[j], roll.root, roll.vendor, roll.addresses));
        }
    }
}

/// Only what was asked for is found, whatever sysfs answers: a vendor filter
/// keeps only that vendor.
pub proof fn only_what_is_asked_for_is_found(state: FunctionsState, reply: Reply)
    requires
        keeps_to_what_is_asked_for(state),
    ensures
        match state.after(reply) {
            Step::Next(next) => {
                &&& keeps_to_what_is_asked_for(next)
                &&& next matches FunctionsState::Looking(roll, _, _, _, _) && (
                    roll.root,
                    roll.vendor,
                    roll.addresses,
                ) == asked_of(state, reply)
            },
            Step::Done(Ok(end)) => {
                let (root, vendor, addresses) = asked_of(state, reply);
                forall|i: int|
                    0 <= i < end.len() ==> is_asked_for(#[trigger] end[i], root, vendor, addresses)
            },
            Step::Done(Err(_)) => true,
        },
{
    match state {
        FunctionsState::Listing(root, vendor) => {
            if let Ok(entries) = told_names(reply->Names_0) {
                let roll = RollState {
                    root,
                    vendor,
                    addresses: addresses(readable_before(entries)),
                    unreadable: first_unreadable(entries),
                };
                lemma_only_what_is_asked_for(roll, 0, seq![], Map::empty());
            }
        },
        FunctionsState::Looking(roll, at, found, cache, facts) => {
            assert(roll.addresses.contains(roll.addresses[at]));
            match facts.after(reply) {
                Step::Next(_) => {},
                Step::Done(Ok(Some(function))) => {
                    lemma_only_what_is_asked_for(
                        roll,
                        at + 1,
                        found.push(function),
                        cache.insert(roll.addresses[at], function),
                    );
                },
                Step::Done(_) => {
                    lemma_only_what_is_asked_for(roll, at + 1, found, cache);
                },
            }
        },
    }
}

/// A function that has been found among the names of a directory opens in the
/// very directory it was found in.
pub proof fn a_function_opens_where_it_was_found(
    function: FunctionState,
    root: Seq<char>,
    vendor: Option<u16>,
    names: Seq<Seq<char>>,
)
    requires
        is_asked_for(function, root, vendor, addresses(names)),
    ensures
        canonical(function.address) == Some(function.address),
        device_dir(root, function.address) == Some(function.device_path),
        opening(devices_dir(function.root), function.address).dev.path == function.device_path,
    decreases names.len(),
{
    if names.len() > 0 {
        let front = addresses(names.drop_last());
        crate::bdf::canonical_is_canonical(names.last());
        if front.contains(function.address) {
            a_function_opens_where_it_was_found(function, root, vendor, names.drop_last());
        } else {
            let all = addresses(names);
            let i = choose|i: int| 0 <= i < all.len() && all[i] == function.address;
            if i < front.len() {
                assert(front[i] == function.address);
            }
        }
    }
}

// --- The manager -------------------------------------------------------------

/// The PCI functions under a sysfs.
#[derive(Debug)]
pub struct PCIDeviceManager {
    sysfs: Sysfs,
}

impl Clone for PCIDeviceManager {
    fn clone(&self) -> (r: Self)
        ensures
            r.root() == self.root(),
    {
        PCIDeviceManager { sysfs: self.sysfs.clone() }
    }
}

impl Default for PCIDeviceManager {
    fn default() -> (r: Self)
        ensures
            r.root() == SYSFS@,
    {
        PCIDeviceManager { sysfs: Sysfs::default() }
    }
}

impl PCIDeviceManager {
    pub closed spec fn root(&self) -> Seq<char> {
        self.sysfs.root()
    }

    pub fn new(sysfs: Sysfs) -> (r: Self)
        ensures
            r.root() == sysfs.root(),
    {
        PCIDeviceManager { sysfs }
    }

    /// All functions there are, or those of one vendor, sorted by address.
    pub fn get_all_devices(&self, vendor: Option<u16>) -> (r: GetAllDevices)
        ensures
            r@ == FunctionsState::Listing(self.root(), vendor),
            r.well_formed(),
    {
        GetAllDevices::Listing(self.sysfs.clone(), vendor)
    }

    /// The function at an address, unless it is another vendor's; one that is
    /// in the cache is as it is there.
    pub fn get_device_by_pci_bus_id(
        &self,
        address: &str,
        vendor: Option<u16>,
        cache: DeviceCache,
    ) -> (r: Step<FunctionFacts, Lookup>)
        ensures
            match (r, canonical(address@)) {
                (Step::Done((end, after)), None) => {
                    &&& lookup_end(end) == Err::<Option<FunctionState>, LookupFault>(
                        LookupFault::Io(not_an_address(address@)),
                    )
                    &&& after@ == cache@
                },
                (Step::Done((end, after)), Some(bdf)) => {
                    &&& cache@.dom().contains(bdf)
                    &&& lookup_end(end) == Ok::<Option<FunctionState>, LookupFault>(
                        Some(cache@[bdf]),
                    )
                    &&& after@ == cache@
                },
                (Step::Next(facts), Some(bdf)) => {
                    &&& !cache@.dom().contains(bdf)
                    &&& facts@ == facts_of(self.root(), bdf, vendor)
                    &&& facts.cache() == cache@
                    &&& facts.well_formed()
                },
                (Step::Next(_), None) => false,
            },
    {
        let address: String = match normalize_bdf(address) {
            Some(address) => address,
            None => {
                return Step::Done((Err(LookupError::Io(refuse_address(address))), cache));
            },
        };
        if let Some(device) = cache.get(&address) {
            return Step::Done((Ok(Some(device)), cache));
        }
        Step::Next(FunctionFacts::start(&self.sysfs, &address, vendor, cache))
    }
}

// --- PCIe --------------------------------------------------------------------

/// How long a function's config space is.
#[derive(Debug)]
pub struct ConfigLength {
    config: String,
}

impl ConfigLength {
    pub closed spec fn config(&self) -> Seq<char> {
        self.config@
    }
}

impl Inquiry for ConfigLength {
    type Output = bool;

    open spec fn asks(&self) -> Seq<Request> {
        seq![Request::FileLen(self.config())]
    }

    open spec fn concludes(&self, replies: Seq<Reply>, output: bool) -> bool {
        output == match told_length(replies[0]->Length_0) {
            Ok(length) => length > PCI_CONFIG_SPACE_SZ,
            Err(_) => false,
        }
    }

    proof fn asks_questions(&self) {
    }

    fn questions(&self) -> (ops: Vec<Op>) {
        let mut ops: Vec<Op> = Vec::new();
        ops.push(Op::FileLen(self.config.clone()));
        assert(requests(ops@) =~= self.asks());
        ops
    }

    fn conclude(self, replies: Vec<Reply>) -> (output: bool) {
        assert(replies@[0].answers(self.asks()[0]));
        match &replies[0] {
            Reply::Length(Ok(length)) => *length > PCI_CONFIG_SPACE_SZ,
            _ => false,
        }
    }
}

/// A PCIe function's config space is larger than a conventional PCI one; one
/// that cannot be read is assumed not to be.
pub fn is_pcie_device(bdf: &str, sysfs: &Sysfs) -> (r: Step<Inquest<ConfigLength>, bool>)
    ensures
        match r {
            Step::Next(inquest) => {
                &&& device_dir(sysfs.root(), bdf@) matches Some(device)
                    && inquest.inquiry().config() == joined_path(device, "config"@)
                &&& inquest.replies() == Seq::<Reply>::empty()
                &&& inquest.well_formed()
            },
            Step::Done(is_pcie) => !is_pcie && canonical(bdf@) is None,
        },
{
    match sysfs.device(bdf) {
        Some(device) => {
            let length: ConfigLength = ConfigLength { config: join(&device, "config") };
            Step::Next(Inquest::ask(length))
        },
        None => Step::Done(false),
    }
}

// --- What a function is ------------------------------------------------------

/// A class is named by its top byte, and a device by its vendor and its number;
/// what the database does not know has a name that says so.
pub proof fn names_come_from_the_database(
    base: u8,
    sub: u8,
    interface: u8,
    vendor: u16,
    device: u16,
)
    ensures
        ({
            let class = (base * 65536 + sub * 256 + interface) as u32;
            &&& pci_class_name(base) matches Some(name) ==> class_name_of(class) == name
            &&& pci_class_name(base) is None ==> class_name_of(class) == "UNKNOWN_CLASS"@
        }),
        pci_device_name(vendor, device) matches Some(name) ==> device_name_of(vendor, device)
            == name,
        pci_device_name(vendor, device) is None ==> device_name_of(vendor, device)
            == "UNKNOWN_DEVICE"@,
{
    let class = (base * 65536 + sub * 256 + interface) as u32;
    assert((class >> 16) as u8 == base) by (bit_vector)
        requires
            class == base * 65536 + sub * 256 + interface,
    ;
}

/// A link ends in the name of what it leads to.
pub open spec fn leads_to(link: Result<Seq<char>, Told>, name: Option<Seq<char>>) -> bool {
    match name {
        Some(name) => {
            &&& is_plain_component(name)
            &&& exists|dir: Seq<char>| link == Ok::<Seq<char>, Told>(#[trigger] dir_entry(dir, name))
        },
        None => link is Err,
    }
}

/// An entry of a directory.
pub open spec fn dir_entry(dir: Seq<char>, name: Seq<char>) -> Seq<char> {
    dir + seq!['/'] + name
}

/// A number in hex, on a line.
pub open spec fn hex_line(value: int, width: int) -> Result<Seq<char>, Told> {
    Ok(seq!['0', 'x'] + hex(value, width) + seq!['\n'])
}

proof fn lemma_hex_line(value: nat, width: int, max: int)
    requires
        max >= 0,
    ensures
        attr_number(hex_line(value as int, width)->Ok_0, max) == if value <= max {
            Ok::<int, NumberFault>(value as int)
        } else {
            Err(NumberFault::Overflow)
        },
{
    let x = seq!['0', 'x'] + hex(value as int, width);
    a_printed_number_is_read(seq![], value, width, seq!['\n'], max);
    assert(seq![] + x + seq!['\n'] =~= x + seq!['\n']);
}

proof fn lemma_decimal_is_a_name(value: nat)
    ensures
        is_plain_component(decimal(value as int)),
        is_trim(decimal(value as int)),
        is_trim(seq!['-'] + decimal(value as int)),
{
    let d = decimal(value as int);
    lemma_numeral_chars(value, 0, 10, false);
    a_padded_number_is_something(value, 0);
    assert(zeros(0 - d.len()) + d =~= d);
    assert forall|i: int| 0 <= i < d.len() implies 48 <= #[trigger] d[i] as int <= 57 || 97
        <= d[i] as int <= 102 by {
        let c = padded(d, 0)[i] as int;
    }
    assert(d[0] != '.');
    assert((seq!['-'] + d).last() == d.last());
}

/// A function is as sysfs shows it: the vendor, the class and the device are the
/// numbers it prints, the driver and the IOMMU group what its links lead to, and
/// the node the number it prints; -1 stands for a group or a node that is not
/// told, and no name for no driver. One that another vendor made than the one
/// asked for is none.
pub proof fn a_function_is_as_shown(
    root: Seq<char>,
    address: Seq<char>,
    wanted: Option<u16>,
    facts: Facts,
    shown: FunctionState,
    node: Option<nat>,
)
    requires
        facts.vendor == hex_line(shown.vendor as int, 4),
        facts.class == hex_line(shown.class as int, 6),
        facts.device == hex_line(shown.device as int, 4),
        leads_to(
            facts.driver,
            if shown.driver.len() == 0 {
                None
            } else {
                Some(shown.driver)
            },
        ),
        shown.iommu_group >= -1,
        leads_to(
            facts.iommu_group,
            if shown.iommu_group == -1 {
                None
            } else {
                Some(decimal(shown.iommu_group as int))
            },
        ),
        match node {
            Some(node) => node <= 0x7fff_ffff_ffff_ffff && facts.numa_node == Ok::<
                Seq<char>,
                Told,
            >(decimal(node as int) + seq!['\n']) && shown.numa_node == node,
            None => (facts.numa_node is Err || facts.numa_node == Ok::<Seq<char>, Told>(
                seq!['-'] + decimal(1) + seq!['\n'],
            )) && shown.numa_node == -1,
        },
        shown.root == root,
        shown.address == address,
        shown.device_path == joined_path(devices_dir(root), address),
        shown.class_name == class_name_of(shown.class),
        shown.device_name == device_name_of(shown.vendor, shown.device),
    ensures
        function_of(root, address, wanted, facts) == Ok::<Option<FunctionState>, LookupFault>(
            if wanted is None || wanted == Some(shown.vendor) {
                Some(shown)
            } else {
                None
            },
        ),
{
    lemma_hex_line(shown.vendor as nat, 4, u16::MAX as int);
    lemma_hex_line(shown.class as nat, 6, u32::MAX as int);
    lemma_hex_line(shown.device as nat, 4, u16::MAX as int);
    if shown.driver.len() > 0 {
        let dir = choose|dir: Seq<char>|
            facts.driver == Ok::<Seq<char>, Told>(#[trigger] dir_entry(dir, shown.driver));
        a_path_ends_in_its_last_entry(dir, shown.driver);
    } else {
        assert(shown.driver =~= seq![]);
    }
    if shown.iommu_group != -1 {
        let name = decimal(shown.iommu_group as int);
        let dir = choose|dir: Seq<char>|
            facts.iommu_group == Ok::<Seq<char>, Told>(#[trigger] dir_entry(dir, name));
        a_path_ends_in_its_last_entry(dir, name);
        a_decimal_number_is_what_it_says(shown.iommu_group as nat, 0);
    }
    match node {
        Some(node) => {
            let d = decimal(node as int);
            lemma_decimal_is_a_name(node);
            a_decimal_number_is_what_it_says(node, 0);
            trimming_takes_off_what_is_around(seq![], d, seq!['\n']);
            assert(seq![] + d + seq!['\n'] =~= d + seq!['\n']);
        },
        None => {
            let d = seq!['-'] + decimal(1);
            lemma_decimal_is_a_name(1);
            a_decimal_number_is_what_it_says(1, 0);
            trimming_takes_off_what_is_around(seq![], d, seq!['\n']);
            assert(seq![] + d + seq!['\n'] =~= d + seq!['\n']);
        },
    }
}

proof fn lemma_function_found(
    tree: Tree,
    root: Seq<char>,
    vendor: Option<u16>,
    addresses: Seq<Seq<char>>,
    i: int,
    function: FunctionState,
)
    requires
        0 <= i < addresses.len(),
        functions_in(tree, root, vendor, addresses) is Ok,
        function_of(root, addresses[i], vendor, facts_in(tree, root, addresses[i])) == Ok::<
            Option<FunctionState>,
            LookupFault,
        >(Some(function)),
    ensures
        functions_in(tree, root, vendor, addresses)->Ok_0.contains(function),
    decreases addresses.len(),
{
    let all = functions_in(tree, root, vendor, addresses)->Ok_0;
    let on = addresses.drop_first();
    if i > 0 {
        assert(on[i - 1] == addresses[i]);
        lemma_function_found(tree, root, vendor, on, i - 1, function);
        let rest = functions_in(tree, root, vendor, on)->Ok_0;
        let j = choose|j: int| 0 <= j < rest.len() && rest[j] == function;
        match function_of(root, addresses[0], vendor, facts_in(tree, root, addresses[0])) {
            Ok(Some(_)) => assert(all[j + 1] == function),
            _ => assert(all[j] == function),
        }
    } else {
        assert(all[0] == function);
    }
}

/// An enumeration finds every function that is listed and that the tree tells
/// of, by rising address; one vendor's only, where that is asked for.
pub proof fn every_function_is_found(
    tree: Tree,
    root: Seq<char>,
    vendor: Option<u16>,
    names: Seq<Seq<char>>,
    i: int,
    function: FunctionState,
)
    requires
        told_names(tree(Request::ListDir(devices_dir(root)))->Names_0) == Ok::<
            Seq<Result<Seq<char>, Told>>,
            Told,
        >(names.map_values(|name: Seq<char>| Ok::<Seq<char>, Told>(name))),
        forall|j: int|
            0 <= j < names.len() && canonical(#[trigger] names[j]) is Some ==> !(function_of(
                root,
                canonical(names[j])->0,
                vendor,
                facts_in(tree, root, canonical(names[j])->0),
            ) matches Err(LookupFault::Malformed(_))),
        0 <= i < names.len(),
        canonical(names[i]) is Some,
        function_of(
            root,
            canonical(names[i])->0,
            vendor,
            facts_in(tree, root, canonical(names[i])->0),
        ) == Ok::<Option<FunctionState>, LookupFault>(Some(function)),
    ensures
        ({
            let list = FunctionsState::Listing(root, vendor);
            let end = functions_run(list.after(tree(list.request())), tree);
            &&& end is Ok
            &&& end->Ok_0.contains(function)
            &&& forall|j: int, k: int|
                0 <= j < k < end->Ok_0.len() ==> address_id((#[trigger] end->Ok_0[j]).address)
                    <= address_id((#[trigger] end->Ok_0[k]).address)
        }),
{
    let list = FunctionsState::Listing(root, vendor);
    let entries = names.map_values(|name: Seq<char>| Ok::<Seq<char>, Told>(name));
    let none: Seq<Result<Seq<char>, Told>> = seq![];
    a_listing_is_read_up_to_its_first_fault(names, (ErrorKind::Other, seq![]), none);
    every_listed_address_is_found(names, seq![]);
    let listed = addresses(names);
    let bdf = canonical(names[i])->0;
    assert(listed.contains(bdf));
    let at = choose|at: int| 0 <= at < listed.len() && listed[at] == bdf;
    assert forall|k: int| 0 <= k < listed.len() implies !(function_of(
        root,
        #[trigger] listed[k],
        vendor,
        facts_in(tree, root, listed[k]),
    ) matches Err(LookupFault::Malformed(_))) by {
        assert(listed.contains(listed[k]));
        let j = choose|j: int|
            0 <= j < names.len() && canonical(#[trigger] names[j]) == Some(listed[k]);
    }
    lemma_nothing_malformed(tree, root, vendor, listed);
    lemma_function_found(tree, root, vendor, listed, at, function);
    let roll = RollState { root, vendor, addresses: listed, unreadable: None };
    let all = functions_in(tree, root, vendor, listed)->Ok_0;
    an_enumeration_finds_the_functions_there_are(tree, roll, 0, seq![], Map::empty());
    assert(listed.skip(0) =~= listed);
    assert(Seq::<FunctionState>::empty() + all =~= all);
    functions_are_ordered_by_address();
    sorting_keeps_everything(all, by_address());
    sorting_loses_nothing(all, by_address(), function);
}

proof fn lemma_nothing_malformed(
    tree: Tree,
    root: Seq<char>,
    vendor: Option<u16>,
    addresses: Seq<Seq<char>>,
)
    requires
        forall|k: int|
            0 <= k < addresses.len() ==> !(function_of(
                root,
                #[trigger] addresses[k],
                vendor,
                facts_in(tree, root, addresses[k]),
            ) matches Err(LookupFault::Malformed(_))),
    ensures
        functions_in(tree, root, vendor, addresses) is Ok,
    decreases addresses.len(),
{
    if addresses.len() > 0 {
        let on = addresses.drop_first();
        assert forall|k: int| 0 <= k < on.len() implies !(function_of(
            root,
            #[trigger] on[k],
            vendor,
            facts_in(tree, root, on[k]),
        ) matches Err(LookupFault::Malformed(_))) by {
            assert(on[k] == addresses[k + 1]);
        }
        lemma_nothing_malformed(tree, root, vendor, on);
        assert(!(function_of(
            root,
            addresses[0],
            vendor,
            facts_in(tree, root, addresses[0]),
        ) matches Err(LookupFault::Malformed(_))));
    }
}

/// A function is PCIe where its config space is longer than 256 bytes, and not
/// where that is not known.
pub proof fn a_longer_config_space_is_pcie(
    question: ConfigLength,
    length: u64,
    fault: IoError,
    answer: bool,
)
    ensures
        question.concludes(seq![Reply::Length(Ok(length))], answer) ==> answer == (length > 256),
        question.concludes(seq![Reply::Length(Err(fault))], answer) ==> !answer,
{
}

/// What is read of a function, and where: three numbers, two links and a node,
/// each an entry of its directory.
pub proof fn facts_are_read_below_the_function(tree: Tree, root: Seq<char>, address: Seq<char>)
    requires
        root.len() > 0,
        root.last() != '/',
        canonical(address) is Some,
    ensures
        ({
            let bdf = canonical(address)->0;
            let dir = root + "/bus/pci/devices/"@ + bdf;
            let facts = facts_in(tree, root, bdf);
            &&& facts.vendor == read_in(tree, dir + "/vendor"@)
            &&& facts.class == read_in(tree, dir + "/class"@)
            &&& facts.device == read_in(tree, dir + "/device"@)
            &&& facts.driver == link_in(tree, dir + "/driver"@)
            &&& facts.iommu_group == link_in(tree, dir + "/iommu_group"@)
            &&& facts.numa_node == read_in(tree, dir + "/numa_node"@)
        }),
{
    let bdf = canonical(address)->0;
    let dir = root + "/bus/pci/devices/"@ + bdf;
    the_bus_is_laid_out_so(root, address);
    canonical_is_one_plain_component(address);
    assert(joined_path(devices_dir(root), bdf) == dir);
    assert(dir.last() == bdf.last());
    assert(bdf[bdf.len() - 1] != '/');
    reveal_strlit("vendor");
    reveal_strlit("/vendor");
    assert(joined_path(dir, "vendor"@) =~= dir + "/vendor"@);
    reveal_strlit("class");
    reveal_strlit("/class");
    assert(joined_path(dir, "class"@) =~= dir + "/class"@);
    reveal_strlit("device");
    reveal_strlit("/device");
    assert(joined_path(dir, "device"@) =~= dir + "/device"@);
    reveal_strlit("driver");
    reveal_strlit("/driver");
    assert(joined_path(dir, "driver"@) =~= dir + "/driver"@);
    reveal_strlit("iommu_group");
    reveal_strlit("/iommu_group");
    assert(joined_path(dir, "iommu_group"@) =~= dir + "/iommu_group"@);
    reveal_strlit("numa_node");
    reveal_strlit("/numa_node");
    assert(joined_path(dir, "numa_node"@) =~= dir + "/numa_node"@);
}

/// A function whose class or device is no number, or whose links lead nowhere, is
/// malformed; one whose vendor is no number, or that cannot be read, is not
/// there to be told.
pub proof fn what_cannot_be_told_of_a_function(
    root: Seq<char>,
    address: Seq<char>,
    facts: Facts,
    vendor: u16,
    fault: Told,
)
    ensures
        facts.vendor == Err::<Seq<char>, Told>(fault) ==> function_of(root, address, None, facts)
            == Err::<Option<FunctionState>, LookupFault>(LookupFault::Io(fault)),
        (facts.vendor matches Ok(content) && attr_number(content, 0xffff) is Err) ==> (function_of(
            root,
            address,
            None,
            facts,
        ) matches Err(LookupFault::Io(err)) && err.0 == ErrorKind::InvalidData),
        facts.vendor == hex_line(vendor as int, 4) && facts.class == Err::<Seq<char>, Told>(fault)
            ==> function_of(root, address, None, facts) == Err::<
            Option<FunctionState>,
            LookupFault,
        >(LookupFault::Io(fault)),
        facts.vendor == hex_line(vendor as int, 4) && (facts.class matches Ok(content)
            && attr_number(content, 0xffff_ffff) is Err) ==> (function_of(
            root,
            address,
            None,
            facts,
        ) matches Err(LookupFault::Malformed(Malformed::Class(_)))),
        facts.vendor == hex_line(vendor as int, 4) && (facts.class matches Ok(content)
            && attr_number(content, 0xffff_ffff) is Ok) && (facts.device matches Ok(content)
            && attr_number(content, 0xffff) is Err) ==> (function_of(root, address, None, facts)
            matches Err(LookupFault::Malformed(Malformed::Device(_)))),
{
    lemma_hex_line(vendor as nat, 4, u16::MAX as int);
}

/// One malformed function ends an enumeration, and so does an entry of the
/// listing that could not be read.
pub proof fn a_malformed_function_ends_an_enumeration(
    tree: Tree,
    root: Seq<char>,
    vendor: Option<u16>,
    addresses: Seq<Seq<char>>,
    i: int,
)
    requires
        0 <= i < addresses.len(),
        function_of(root, addresses[i], vendor, facts_in(tree, root, addresses[i])) matches Err(
            LookupFault::Malformed(_),
        ),
    ensures
        functions_in(tree, root, vendor, addresses) matches Err(LookupFault::Malformed(_)),
        ({
            let roll = RollState { root, vendor, addresses, unreadable: None };
            functions_run(
                FunctionsState::look_from(roll, 0, seq![], Map::empty()),
                tree,
            ) matches Err(LookupFault::Malformed(_))
        }),
    decreases addresses.len(),
{
    let roll = RollState { root, vendor, addresses, unreadable: None };
    let on = addresses.drop_first();
    if i > 0 {
        assert(on[i - 1] == addresses[i]);
        a_malformed_function_ends_an_enumeration(tree, root, vendor, on, i - 1);
    }
    an_enumeration_finds_the_functions_there_are(tree, roll, 0, seq![], Map::empty());
    assert(addresses.skip(0) =~= addresses);
}

/// A link that leads nowhere makes a function malformed, be it that of its driver
/// or that of its group; a link or a node that is not there does not, nor does a
/// name that is no number.
pub proof fn a_link_to_nowhere_is_malformed(
    target: Seq<char>,
    fault: Told,
    name: Seq<char>,
    i: int,
)
    requires
        entry_name(target) is None,
        0 < i < name.len(),
        digit_of(name[i], 10) is None,
    ensures
        driver_in(Ok(target)) == Err::<Seq<char>, LookupFault>(
            LookupFault::Malformed(Malformed::DriverLink),
        ),
        iommu_group_in(Ok(target)) == Err::<i64, LookupFault>(
            LookupFault::Malformed(Malformed::IommuLink),
        ),
        driver_in(Err(fault)) == Ok::<Seq<char>, LookupFault>(seq![]),
        iommu_group_in(Err(fault)) == Ok::<i64, LookupFault>((-1) as i64),
        numa_node_in(Err(fault)) == -1,
        number_or_minus_one(name) == -1,
{
    what_is_no_signed_number_is_refused(name, i);
}

/// A function that was found is remembered under its address, and nothing else
/// is changed by that; one that was not found leaves the cache as it was.
pub proof fn what_is_found_is_remembered(
    cache: Cached,
    address: Seq<char>,
    other: Seq<char>,
    function: FunctionState,
    fault: LookupFault,
)
    requires
        other != address,
    ensures
        ({
            let after = cache_after(cache, address, Ok(Some(function)));
            &&& after.dom().contains(address) && after[address] == function
            &&& after.dom().contains(other) == cache.dom().contains(other)
            &&& cache.dom().contains(other) ==> after[other] == cache[other]
        }),
        cache_after(cache, address, Ok(None)) == cache,
        cache_after(cache, address, Err(fault)) == cache,
{
}

/// An enumeration that meets an entry it cannot read fails with that, and one
/// that cannot list the bus with why.
pub proof fn an_unreadable_bus_ends_an_enumeration(
    tree: Tree,
    root: Seq<char>,
    vendor: Option<u16>,
    names: Seq<Seq<char>>,
    fault: Told,
    rest: Seq<Result<Seq<char>, Told>>,
)
    ensures
        ({
            let list = FunctionsState::Listing(root, vendor);
            let end = functions_run(list.after(tree(list.request())), tree);
            let listed = told_names(tree(Request::ListDir(devices_dir(root)))->Names_0);
            &&& listed == Err::<Seq<Result<Seq<char>, Told>>, Told>(fault) ==> end
                == FunctionsEnd::Err(LookupFault::Io(fault))
            &&& listed == Ok::<Seq<Result<Seq<char>, Told>>, Told>(
                names.map_values(|name: Seq<char>| Ok::<Seq<char>, Told>(name)) + seq![
                    Err::<Seq<char>, Told>(fault),
                ] + rest,
            ) ==> end is Err
        }),
{
    a_listing_is_read_up_to_its_first_fault(names, fault, rest);
    let roll = RollState { root, vendor, addresses: addresses(names), unreadable: Some(fault) };
    an_enumeration_finds_the_functions_there_are(tree, roll, 0, seq![], Map::empty());
}

proof fn lemma_functions_are_few(
    tree: Tree,
    root: Seq<char>,
    vendor: Option<u16>,
    addresses: Seq<Seq<char>>,
)
    ensures
        functions_in(tree, root, vendor, addresses) matches Ok(all) ==> all.len()
            <= addresses.len(),
    decreases addresses.len(),
{
    if addresses.len() > 0 {
        lemma_functions_are_few(tree, root, vendor, addresses.drop_first());
    }
}

/// An enumeration finds no more functions than it has addresses: none comes twice
/// that is listed once.
pub proof fn no_function_is_made_up(
    tree: Tree,
    root: Seq<char>,
    vendor: Option<u16>,
    listed: Seq<Seq<char>>,
)
    ensures
        ({
            let roll = RollState { root, vendor, addresses: listed, unreadable: None };
            functions_run(
                FunctionsState::look_from(roll, 0, seq![], Map::empty()),
                tree,
            ) matches Ok(found) ==> found.len() <= listed.len()
        }),
{
    let roll = RollState { root, vendor, addresses: listed, unreadable: None };
    an_enumeration_finds_the_functions_there_are(tree, roll, 0, seq![], Map::empty());
    assert(listed.skip(0) =~= listed);
    lemma_functions_are_few(tree, root, vendor, listed);
    if let Ok(all) = functions_in(tree, root, vendor, listed) {
        assert(Seq::<FunctionState>::empty() + all =~= all);
        functions_are_ordered_by_address();
        sorting_keeps_everything(all, by_address());
    }
}

/// A function shows what it holds.
pub proof fn a_function_shows_its_fields(device: PCIDevice)
    ensures
        device@.device_path == device.device_path@,
        device@.address == device.address@,
        device@.vendor == device.vendor,
        device@.class == device.class,
        device@.class_name == device.class_name@,
        device@.device == device.device,
        device@.device_name == device.device_name@,
        device@.driver == device.driver@,
        device@.iommu_group == device.iommu_group,
        device@.numa_node == device.numa_node,
        device@.root == device.sysfs.root(),
{
}

/// A lookup or an enumeration of functions stands where its state says, and ends
/// in what it hands out.
pub proof fn where_a_lookup_of_functions_stands(
    device: PCIDevice,
    all: GetAllDevices,
    found: Vec<PCIDevice>,
    i: int,
    err: IoError,
    malformed: Malformed,
)
    requires
        0 <= i < found@.len(),
    ensures
        lookup_end(Ok(Some(device))) == LookupEnd::Ok(Some(device@)),
        lookup_end(Ok(None)) == LookupEnd::Ok(None),
        lookup_end(Err(LookupError::Io(err))) == LookupEnd::Err(
            LookupFault::Io((err.kind, err.message@)),
        ),
        lookup_end(Err(LookupError::Malformed(malformed))) == LookupEnd::Err(
            LookupFault::Malformed(malformed),
        ),
        functions_step(Step::Next(all)) == Step::<FunctionsState, FunctionsEnd>::Next(all@),
        functions_step(Step::Done(Ok(found))) matches Step::Done(Ok(shown)) && shown.len()
            == found@.len() && shown[i] == found@[i]@,
        functions_step(Step::Done(Err(LookupError::Io(err)))) == Step::<
            FunctionsState,
            FunctionsEnd,
        >::Done(Err(LookupFault::Io((err.kind, err.message@)))),
        functions_step(Step::Done(Err(LookupError::Malformed(malformed)))) == Step::<
            FunctionsState,
            FunctionsEnd,
        >::Done(Err(LookupFault::Malformed(malformed))),
        faulted(Ok::<u16, LookupError>(device.vendor)) == Ok::<u16, LookupFault>(device.vendor),
        faulted(Err::<u16, LookupError>(LookupError::Io(err))) == Err::<u16, LookupFault>(
            LookupFault::Io((err.kind, err.message@)),
        ),
{
}

/// What a lookup ends in is what its facts come to, and the cache it gives back
/// remembers just that.
pub proof fn a_lookup_gives_its_cache_back(
    facts: FunctionFacts,
    reply: Reply,
    step: Step<FunctionFacts, Lookup>,
    function: FunctionState,
)
    requires
        looks_on(facts, reply, step),
    ensures
        facts@.after(reply) is Next ==> (step matches Step::Next(next) && facts@.after(reply)
            == Step::<FactsState, LookupEnd>::Next(next@) && next.cache() == facts.cache()),
        facts@.after(reply) == Step::<FactsState, LookupEnd>::Done(Ok(Some(function))) ==> (step
            matches Step::Done((Ok(Some(device)), cache)) && device@ == function && cache@
            == facts.cache().insert(facts@.known.address, function)),
        facts@.after(reply) == Step::<FactsState, LookupEnd>::Done(Ok(None)) ==> (step
            matches Step::Done((Ok(None), cache)) && cache@ == facts.cache()),
{
}

} // verus!
