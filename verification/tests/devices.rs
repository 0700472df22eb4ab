use std::collections::{BTreeMap, BTreeSet};

use pcilibs_rs::cc::{discover, discover_switches, CcError, Gpu, NvSwitch};
use pcilibs_rs::infiniband::snapshot_infiniband;
use pcilibs_rs::iommufd::{enumerate_iommufd, lookup_iommufd_dev, IommufdDev};
use pcilibs_rs::kernel::{failed, Entry, ErrorKind, IoError, Op, Procedure, Reply, Step};
use pcilibs_rs::pci_dev::{dword_at, PciDev, PCI_COMMAND, PCI_COMMAND_MEMORY};
use pcilibs_rs::pci_ids::{UNKNOWN_CLASS, UNKNOWN_DEVICE};
use pcilibs_rs::pci_manager::{
    is_pcie_device, DeviceCache, LookupError, Malformed, PCIDevice, PCIDeviceManager,
    PCI_CONFIG_SPACE_SZ,
};
use pcilibs_rs::vfio::{
    bind, current_driver, driver_for, module_for, unbind, verify_bound, Bound,
};
use pcilibs_rs::Sysfs;

const ROOT: &str = "/fake";
const BDF: &str = "0000:65:00.0";

/// A kernel in memory: files, links, registers and a clock that only sleeping
/// moves.
#[derive(Default)]
struct World {
    files: BTreeMap<String, Vec<u8>>,
    links: BTreeMap<String, String>,
    dirs: BTreeSet<String>,
    nodes: BTreeMap<String, (u32, u64)>,
    read_only: BTreeSet<String>,
    /// Entries that will not read when their directory is listed.
    unreadable: BTreeSet<String>,
    registers: BTreeMap<u32, u32>,
    bar0_len: u64,
    clock: u64,
    started: u64,
    /// Every file written, in order.
    writes: Vec<(String, String)>,
}

fn parent(path: &str) -> &str {
    path.rsplit_once('/').map_or("", |(parent, _)| parent)
}

/// A path stands for its name byte for byte: one char, one byte.
fn bytes_of(name: &str) -> Vec<u8> {
    name.chars().map(|c| c as u8).collect()
}

fn path_of(dir: &str, raw: &[u8]) -> String {
    let name: String = raw.iter().map(|byte| *byte as char).collect();
    format!("{dir}/{name}")
}

fn missing(path: &str) -> IoError {
    failed(ErrorKind::NotFound, format!("{path}: no such file"))
}

impl World {
    /// The directories the kernel always has.
    fn new() -> World {
        let mut world = World::default();
        let sysfs = Sysfs::new(ROOT);
        world.dir(&sysfs.devices());
        world.dir(&format!("{}/drivers", sysfs.bus_pci()));
        world.dir(&sysfs.iommu_groups());
        world.file(&sysfs.drivers_probe(), "");
        world
    }

    fn dir(&mut self, path: &str) {
        let mut path = path;
        while !path.is_empty() {
            self.dirs.insert(path.to_string());
            path = parent(path);
        }
    }

    fn file(&mut self, path: &str, content: &str) {
        self.dir(parent(path));
        self.files
            .insert(path.to_string(), content.as_bytes().to_vec());
    }

    fn link(&mut self, path: &str, target: &str) {
        self.dir(parent(path));
        self.links.insert(path.to_string(), target.to_string());
    }

    fn device(&self, address: &str) -> String {
        Sysfs::new(ROOT).device(address).expect("a PCI address")
    }

    fn add_device(&mut self, address: &str, driver: Option<&str>) {
        let path = self.device(address);
        self.dir(&path);
        // The kernel links both ways, and names the device by its canonical
        // address on both sides.
        if let Some(driver) = driver {
            let name = path.rsplit_once('/').unwrap().1.to_string();
            let driver_dir = Sysfs::new(ROOT).driver(driver).expect("a driver name");
            self.dir(&driver_dir);
            self.link(&format!("{path}/driver"), &driver_dir);
            self.link(&format!("{driver_dir}/{name}"), &path);
        }
    }

    fn add_pci_device(
        &mut self,
        address: &str,
        vendor: u16,
        device: u16,
        class: u32,
        driver: Option<&str>,
    ) {
        self.add_device(address, driver);
        let path = self.device(address);
        self.file(&format!("{path}/vendor"), &format!("{vendor:#06x}\n"));
        self.file(&format!("{path}/device"), &format!("{device:#06x}\n"));
        self.file(&format!("{path}/class"), &format!("{class:#08x}\n"));
        self.file(&format!("{path}/numa_node"), "0\n");
    }

    fn add_mappable_device(
        &mut self,
        address: &str,
        vendor: u16,
        device: u16,
        class: u32,
        bar0_len: u64,
    ) {
        self.add_pci_device(address, vendor, device, class, None);
        let path = self.device(address);
        self.bar0_len = bar0_len;
        self.file(&format!("{path}/resource0"), "");
        self.files.insert(format!("{path}/config"), vec![0; 64]);
        self.file(&format!("{path}/reset"), "");
        self.file(&format!("{path}/power/control"), "auto\n");
        self.file(&format!("{path}/power/runtime_status"), "active\n");
    }

    fn add_cdev(&mut self, n: u32, vendor: &str, device: &str, class: &str) {
        self.file(&format!("{ROOT}/devices/vfio{n}"), "");
        let dir = format!("{}/device", Sysfs::new(ROOT).vfio_dev(&format!("vfio{n}")));
        self.file(&format!("{dir}/vendor"), &format!("{vendor}\n"));
        self.file(&format!("{dir}/device"), &format!("{device}\n"));
        self.file(&format!("{dir}/class"), &format!("{class}\n"));
    }

    fn text(&self, path: &str) -> String {
        let bytes = self.files.get(path).cloned().unwrap_or_default();
        String::from_utf8(bytes).unwrap()
    }

    fn remove_dir(&mut self, path: &str) {
        let below = format!("{path}/");
        self.dirs
            .retain(|p| p != path && !p.starts_with(below.as_str()));
        self.files.retain(|p, _| !p.starts_with(below.as_str()));
        self.links.retain(|p, _| !p.starts_with(below.as_str()));
    }

    /// A path with the links along it followed.
    fn resolve(&self, path: &str) -> String {
        for (link, target) in &self.links {
            if let Some(rest) = path.strip_prefix(&format!("{link}/")) {
                return self.resolve(&format!("{target}/{rest}"));
            }
        }
        path.to_string()
    }

    fn is_there(&self, path: &str) -> bool {
        self.files.contains_key(path)
            || self.dirs.contains(path)
            || self.links.contains_key(path)
            || self.nodes.contains_key(path)
    }

    fn names(&self, dir: &str) -> Vec<Result<Entry, IoError>> {
        let below = format!("{dir}/");
        let all: BTreeSet<&String> = self
            .files
            .keys()
            .chain(self.links.keys())
            .chain(self.dirs.iter())
            .chain(self.nodes.keys())
            .chain(self.unreadable.iter())
            .collect();
        // In no order a caller could mistake for the right one.
        all.into_iter()
            .rev()
            .filter(|path| {
                path.strip_prefix(below.as_str())
                    .is_some_and(|name| !name.contains('/'))
            })
            .map(|path| {
                if self.unreadable.contains(path) {
                    Err(missing(path))
                } else {
                    let raw = bytes_of(&path[below.len()..]);
                    let name = String::from_utf8_lossy(&raw).into_owned();
                    Ok(Entry { name, raw })
                }
            })
            .collect()
    }

    fn answer(&mut self, op: Op) -> Reply {
        match op {
            Op::Exists(path) => Reply::Flag(self.is_there(&self.resolve(&path))),
            Op::IsDir(path) => Reply::Flag(self.dirs.contains(&self.resolve(&path))),
            Op::ReadText(path) => Reply::Text(match self.files.get(&self.resolve(&path)) {
                Some(bytes) => Ok(String::from_utf8(bytes.clone()).unwrap()),
                None => Err(missing(&path)),
            }),
            Op::ReadLink(path) => Reply::Text(match self.links.get(&path) {
                Some(target) => Ok(target.clone()),
                None => Err(missing(&path)),
            }),
            Op::ReadEntryText(dir, raw, file) => {
                self.answer(Op::ReadText(format!("{}/{file}", path_of(&dir, &raw))))
            }
            Op::ReadEntryLink(dir, raw, file) => {
                self.answer(Op::ReadLink(format!("{}/{file}", path_of(&dir, &raw))))
            }
            Op::WriteText(path, content) => {
                let path = self.resolve(&path);
                Reply::Unit(if self.read_only.contains(&path) {
                    Err(failed(ErrorKind::PermissionDenied, "denied".to_string()))
                } else if self.dirs.contains(&path) {
                    Err(failed(ErrorKind::IsADirectory, "a directory".to_string()))
                } else if !self.dirs.contains(parent(&path)) {
                    Err(missing(&path))
                } else {
                    self.files.insert(path.clone(), content.clone().into_bytes());
                    self.writes.push((path, content));
                    Ok(())
                })
            }
            Op::ReadBytes(path, at) => Reply::Bytes(match self.files.get(&path) {
                Some(bytes) => Ok((bytes[at as usize], bytes[at as usize + 1])),
                None => Err(missing(&path)),
            }),
            Op::WriteBytes(path, at, low, high) => {
                Reply::Unit(if self.read_only.contains(&path) {
                    Err(failed(ErrorKind::PermissionDenied, "denied".to_string()))
                } else {
                    let bytes = self.files.get_mut(&path).unwrap();
                    bytes[at as usize] = low;
                    bytes[at as usize + 1] = high;
                    Ok(())
                })
            }
            Op::ListDir(path) => Reply::Names(if self.dirs.contains(&path) {
                Ok(self.names(&path))
            } else {
                Err(missing(&path))
            }),
            Op::FileLen(path) => Reply::Length(match self.files.get(&path) {
                Some(bytes) => Ok(bytes.len() as u64),
                None => Err(missing(&path)),
            }),
            Op::StatEntry(dir, raw) => {
                let path = path_of(&dir, &raw);
                Reply::Node(match self.nodes.get(&path) {
                    Some(node) => Ok(*node),
                    None if self.files.contains_key(&path) => Ok((0o100644, 0)),
                    None if self.dirs.contains(&path) => Ok((0o040755, 0)),
                    None => Err(missing(&path)),
                })
            }
            Op::MapFile(path) => Reply::Length(if !self.files.contains_key(&path) {
                Err(failed(
                    ErrorKind::NotFound,
                    format!("open {path} (needs root): no such file"),
                ))
            } else if self.bar0_len == 0 {
                Err(failed(ErrorKind::InvalidInput, format!("mmap {path}: EINVAL")))
            } else {
                Ok(self.bar0_len)
            }),
            Op::Read32(offset) => {
                dword_at(self.bar0_len, offset).expect("a register");
                Reply::Word(self.registers.get(&offset).copied().unwrap_or(0))
            }
            Op::Write32(offset, value) => {
                dword_at(self.bar0_len, offset).expect("a register");
                self.registers.insert(offset, value);
                Reply::Done
            }
            Op::StartTimer => {
                self.started = self.clock;
                Reply::Done
            }
            Op::Elapsed => Reply::Nanos(self.clock - self.started),
            Op::Sleep(ms) => {
                self.clock += ms * 1_000_000;
                Reply::Done
            }
        }
    }

    fn run<P: Procedure>(&mut self, procedure: P) -> P::Output {
        let mut procedure = procedure;
        loop {
            let reply = self.answer(procedure.op());
            match procedure.resume(reply) {
                Step::Next(next) => procedure = next,
                Step::Done(output) => return output,
            }
        }
    }

    fn go_on<P: Procedure>(&mut self, step: Step<P, P::Output>) -> P::Output {
        match step {
            Step::Next(procedure) => self.run(procedure),
            Step::Done(output) => output,
        }
    }
}

fn sysfs() -> Sysfs {
    Sysfs::new(ROOT)
}

/// Sysfs spells the device the same on both sides of the link.
#[test]
fn links_a_device_by_its_canonical_address() {
    let mut world = World::new();
    world.add_device("65:00.0", Some("vfio-pci"));

    let driver = sysfs().driver("vfio-pci").expect("a driver name");
    assert!(world.links.contains_key(&format!("{driver}/0000:65:00.0")));
    assert!(!world.is_there(&format!("{driver}/65:00.0")));
}

// --- Opening a device --------------------------------------------------------

fn fake_device(runtime_status: &str) -> World {
    let mut world = World::new();
    world.add_mappable_device(BDF, 0x10de, 0x2330, 0x030200, 4096);
    let status = format!("{}/power/runtime_status", world.device(BDF));
    world.file(&status, &format!("{runtime_status}\n"));
    world
}

fn open(world: &mut World) -> Result<PciDev, IoError> {
    world.run(PciDev::open_in(&sysfs(), BDF).unwrap())
}

fn at(world: &World, file: &str) -> String {
    format!("{}/{file}", world.device(BDF))
}

fn command_byte(world: &World) -> u8 {
    world.files[&at(world, "config")][PCI_COMMAND as usize]
}

#[test]
fn opens_a_device_that_is_not_suspended() {
    for status in ["active", "unsupported"] {
        let mut world = fake_device(status);

        let dev = open(&mut world).unwrap();

        assert_eq!((dev.vendor, dev.device), (0x10de, 0x2330));
        assert_eq!(dev.bdf, BDF);
        assert_eq!(dev.bar0_len, 4096);
        assert_eq!(dev.power_control.as_deref(), Some("auto"));
        assert_eq!(world.text(&at(&world, "power/control")), "on");
    }
}

#[test]
fn open_reads_the_running_kernel() {
    let err = PciDev::open("nonsense").unwrap_err();

    assert_eq!(err.kind, ErrorKind::InvalidInput);
    assert_eq!(err.message, "\"nonsense\" is not a PCI address");
}

#[test]
fn open_refuses_a_device_that_is_not_there() {
    let mut world = World::new();

    let err = open(&mut world).unwrap_err();

    assert_eq!(err.kind, ErrorKind::NotFound);
    assert_eq!(
        err.message,
        "no PCI device 0000:65:00.0 under /fake/bus/pci/devices"
    );
}

#[test]
fn open_refuses_an_address_that_is_not_one() {
    for bdf in ["../../../etc", "/etc", "0000:65:00.0/.."] {
        let err = PciDev::open_in(&Sysfs::default(), bdf).unwrap_err();

        assert_eq!(err.kind, ErrorKind::InvalidInput);
    }
}

#[test]
fn open_refuses_ids_that_do_not_parse() {
    let mut world = fake_device("active");
    let vendor = at(&world, "vendor");
    world.file(&vendor, "nonsense\n");

    let err = open(&mut world).unwrap_err();

    assert_eq!(err.kind, ErrorKind::InvalidData);
    assert!(world.writes.is_empty());
}

#[test]
fn an_id_wider_than_16_bits_is_cut() {
    let mut world = fake_device("active");
    let device = at(&world, "device");
    world.file(&device, "0x12330\n");

    assert_eq!(open(&mut world).unwrap().device, 0x2330);
}

#[test]
fn a_zero_length_bar0_fails_to_map() {
    let mut world = fake_device("active");
    world.bar0_len = 0;

    let err = open(&mut world).unwrap_err().message;

    assert!(err.contains("mmap"), "{err}");
}

#[test]
fn a_failed_open_leaves_the_power_policy_alone() {
    let mut world = fake_device("active");
    // No config file: the COMMAND read fails after waking has written.
    let config = at(&world, "config");
    world.files.remove(&config);

    let err = open(&mut world).unwrap_err().message;

    assert!(err.contains("COMMAND"), "{err}");
    assert_eq!(world.text(&at(&world, "power/control")).trim(), "auto");
}

#[test]
fn a_device_that_cannot_be_woken_fails_to_open() {
    let mut world = fake_device("suspended");
    let control = at(&world, "power/control");
    world.read_only.insert(control);

    let err = open(&mut world).unwrap_err();

    assert_eq!(err.kind, ErrorKind::PermissionDenied);
    assert!(err.message.ends_with("power/control to on (needs root): denied"));
}

#[test]
fn a_device_that_does_not_wake_times_out_and_gets_its_policy_back() {
    let mut world = fake_device("suspended");

    let err = open(&mut world).unwrap_err();

    assert_eq!(err.kind, ErrorKind::TimedOut);
    assert_eq!(err.message, "timed out waiting for device wakeup from D3");
    assert!(world.clock > 5_000_000_000);
    assert_eq!(world.text(&at(&world, "power/control")), "auto");
}

#[test]
fn a_device_without_runtime_pm_opens_anyway() {
    let mut world = fake_device("active");
    let power = at(&world, "power");
    world.remove_dir(&power);

    let dev = open(&mut world).unwrap();

    assert!(dev.power_control.is_none());
}

#[test]
fn opening_a_silent_device_turns_memory_decoding_on() {
    let mut world = fake_device("active");

    let dev = open(&mut world).unwrap();
    assert!(dev.decoding_enabled);
    assert_eq!(command_byte(&world), PCI_COMMAND_MEMORY as u8);
    world.go_on(dev.close());

    assert_eq!(command_byte(&world), 0);
    assert_eq!(world.text(&at(&world, "power/control")), "auto");
}

#[test]
fn a_device_already_decoding_memory_is_left_as_it_was() {
    let mut world = fake_device("active");
    let config = at(&world, "config");
    world.files.get_mut(&config).unwrap()[PCI_COMMAND as usize] = PCI_COMMAND_MEMORY as u8;

    let dev = open(&mut world).unwrap();
    world.go_on(dev.close());

    assert_eq!(command_byte(&world), PCI_COMMAND_MEMORY as u8);
}

#[test]
fn closing_restores_the_policy_though_the_config_is_gone() {
    let mut world = fake_device("active");
    let dev = open(&mut world).unwrap();
    let config = at(&world, "config");
    world.files.remove(&config);

    world.go_on(dev.close());

    assert_eq!(world.text(&at(&world, "power/control")), "auto");
}

#[test]
fn a_config_space_that_will_not_take_the_command_bit_fails_the_open() {
    let mut world = fake_device("active");
    let config = at(&world, "config");
    world.read_only.insert(config);

    let err = open(&mut world).unwrap_err();

    assert_eq!(err.kind, ErrorKind::PermissionDenied);
    assert!(err.message.starts_with("set memory decoding on "));
    assert_eq!(world.text(&at(&world, "power/control")), "auto");
}

#[test]
fn a_register_round_trips_through_bar0() {
    let mut world = fake_device("active");
    let dev = open(&mut world).unwrap();

    world.answer(dev.write32(0xffc, 0xdead_beef));

    assert!(matches!(
        world.answer(dev.read32(0xffc)),
        Reply::Word(0xdead_beef)
    ));
}

#[test]
fn a_reset_goes_through_sysfs() {
    let mut world = fake_device("active");
    let dev = open(&mut world).unwrap();

    world.run(dev.sysfs_reset()).unwrap();

    assert_eq!(world.text(&at(&world, "reset")), "1");
}

#[test]
fn a_reset_the_kernel_will_not_take_is_reported() {
    let mut world = fake_device("active");
    let dev = open(&mut world).unwrap();
    let reset = at(&world, "reset");
    world.read_only.insert(reset);

    let err = world.run(dev.sysfs_reset()).unwrap_err();

    assert_eq!(err.kind, ErrorKind::PermissionDenied);
    assert_eq!(err.message, "0000:65:00.0: reset via sysfs: denied");
}

// --- Binding -----------------------------------------------------------------

fn bind_to(world: &mut World, address: &str, driver: &str) -> Result<Bound, IoError> {
    world.run(bind(&sysfs(), address, driver)?)
}

fn unbind_from(world: &mut World, address: &str) -> Result<(), IoError> {
    world.run(unbind(&sysfs(), address)?)
}

fn driver_override(world: &World) -> String {
    world.text(&at(world, "driver_override"))
}

fn drivers_probe(world: &World) -> String {
    world.text(&sysfs().drivers_probe())
}

#[test]
fn binds_an_unbound_device_to_the_driver_it_asked_for() {
    for driver in ["vfio-pci", "nvgrace-gpu-vfio-pci"] {
        let mut world = World::new();
        world.add_device(BDF, None);

        assert_eq!(bind_to(&mut world, BDF, driver).unwrap(), Bound::Now);

        assert_eq!(driver_override(&world), driver);
        assert_eq!(drivers_probe(&world), BDF);
    }
}

/// The override, the probe, and nothing else.
#[test]
fn binding_an_unbound_device_writes_two_files() {
    let mut world = World::new();
    world.add_device(BDF, None);
    let device = world.device(BDF);

    bind_to(&mut world, "65:00.0", "vfio-pci").unwrap();

    assert_eq!(
        world.writes,
        [
            (format!("{device}/driver_override"), "vfio-pci".to_string()),
            (sysfs().drivers_probe(), BDF.to_string()),
        ]
    );
}

#[test]
fn binding_an_already_bound_device_succeeds_and_writes_nothing() {
    for driver in ["vfio-pci", "nvgrace-gpu-vfio-pci"] {
        let mut world = World::new();
        world.add_device(BDF, Some(driver));

        assert_eq!(bind_to(&mut world, BDF, driver).unwrap(), Bound::Already);

        assert_eq!(drivers_probe(&world), "");
        assert!(world.writes.is_empty());
    }
}

#[test]
fn refuses_a_device_bound_to_the_wrong_vfio_driver() {
    let mut world = World::new();
    world.add_device(BDF, Some("vfio-pci"));

    let err = bind_to(&mut world, BDF, "nvgrace-gpu-vfio-pci").unwrap_err();

    assert_eq!(err.kind, ErrorKind::ResourceBusy);
    assert_eq!(
        err.message,
        "0000:65:00.0: held by driver \"vfio-pci\", refusing to take it"
    );
}

#[test]
fn refuses_a_device_another_driver_holds() {
    for driver in ["nvidia", "nouveau", "igb"] {
        let mut world = World::new();
        world.add_device(BDF, Some(driver));

        let err = bind_to(&mut world, BDF, "vfio-pci").unwrap_err().message;

        assert!(err.contains(driver), "{err}");
        assert_eq!(drivers_probe(&world), "");
        assert!(world.writes.is_empty());
    }
}

#[test]
fn probes_the_address_the_kernel_knows_the_device_by() {
    for address in [BDF, "65:00.0", "0:65:0.0"] {
        let mut world = World::new();
        world.add_device(address, None);

        bind_to(&mut world, address, "vfio-pci").unwrap();

        assert_eq!(drivers_probe(&world), BDF);
    }
}

#[test]
fn unbinds_the_address_the_kernel_knows_the_device_by() {
    for address in [BDF, "65:00.0", "0:65:0.0"] {
        let mut world = World::new();
        world.add_device(address, Some("vfio-pci"));

        unbind_from(&mut world, address).unwrap();

        assert_eq!(world.text("/fake/bus/pci/drivers/vfio-pci/unbind"), BDF);
    }
}

#[test]
fn a_refused_bind_takes_its_override_back() {
    let mut world = World::new();
    world.add_device(BDF, None);
    // A directory is what makes the kernel's own file reject a write.
    let probe = sysfs().drivers_probe();
    world.files.remove(&probe);
    world.dir(&probe);

    let err = bind_to(&mut world, BDF, "vfio-pci").unwrap_err();

    assert_eq!(err.kind, ErrorKind::IsADirectory);
    assert_eq!(
        err.message,
        "0000:65:00.0: trigger driver probe: a directory"
    );
    assert_eq!(driver_override(&world).trim(), "");
}

#[test]
fn an_override_the_kernel_will_not_take_is_reported() {
    let mut world = World::new();
    world.add_device(BDF, None);
    let file = at(&world, "driver_override");
    world.read_only.insert(file);

    let err = bind_to(&mut world, BDF, "vfio-pci").unwrap_err();

    assert_eq!(
        err.message,
        "0000:65:00.0: set driver_override to vfio-pci: denied"
    );
    let err = unbind_from(&mut world, BDF).unwrap_err();
    assert_eq!(err.message, "0000:65:00.0: clear driver_override: denied");
}

#[test]
fn a_driver_that_will_not_let_go_is_reported() {
    let mut world = World::new();
    world.add_device(BDF, Some("nvidia"));
    world
        .read_only
        .insert("/fake/bus/pci/drivers/nvidia/unbind".to_string());

    let err = unbind_from(&mut world, BDF).unwrap_err();

    assert_eq!(err.message, "0000:65:00.0: unbind: denied");
}

#[test]
fn refuses_a_device_that_is_not_there() {
    let mut world = World::new();

    let err = bind_to(&mut world, BDF, "vfio-pci").unwrap_err();

    assert_eq!(err.kind, ErrorKind::NotFound);
    assert_eq!(
        err.message,
        "0000:65:00.0: no such PCI device under /fake/bus/pci/devices/0000:65:00.0"
    );
}

#[test]
fn refuses_an_address_that_is_not_one() {
    for address in ["../../../etc", "/etc/shadow", "wat"] {
        let mut world = World::new();

        let err = bind_to(&mut world, address, "vfio-pci").unwrap_err();

        assert_eq!(err.kind, ErrorKind::InvalidInput);
        assert!(unbind_from(&mut world, address).is_err());
    }
}

#[test]
fn verify_reads_the_driver_back() {
    for (driver, expected) in [
        (Some("vfio-pci"), true),
        (Some("nvidia"), false),
        (Some("nvgrace-gpu-vfio-pci"), false),
        (None, false),
    ] {
        let mut world = World::new();
        world.add_device(BDF, driver);

        let verdict = world.go_on(verify_bound(&sysfs(), BDF, "vfio-pci"));

        assert_eq!(verdict.is_ok(), expected);
    }
}

#[test]
fn a_verdict_says_which_driver_it_found() {
    let mut world = World::new();
    world.add_device(BDF, Some("nvidia"));

    let err = world
        .go_on(verify_bound(&sysfs(), "65:00.0", "vfio-pci"))
        .unwrap_err();
    assert_eq!(err.kind, ErrorKind::Other);
    assert_eq!(
        err.message,
        "65:00.0: bound to \"nvidia\", expected vfio-pci"
    );
    let err = world
        .go_on(verify_bound(&sysfs(), "nonsense", "vfio-pci"))
        .unwrap_err();
    assert_eq!(err.message, "nonsense: still unbound after probe");
}

#[test]
fn the_current_driver_is_what_the_link_ends_in() {
    let mut world = World::new();
    world.add_device(BDF, Some("nvidia"));
    world.add_device("0000:03:00.0", None);

    let driver = world.go_on(current_driver(&sysfs(), "65:00.0"));
    assert_eq!(driver.as_deref(), Some("nvidia"));
    assert_eq!(world.go_on(current_driver(&sysfs(), "03:00.0")), None);
    assert_eq!(world.go_on(current_driver(&sysfs(), "nonsense")), None);
}

#[test]
fn unbind_releases_and_clears_the_override() {
    let mut world = World::new();
    world.add_device(BDF, Some("vfio-pci"));

    unbind_from(&mut world, BDF).unwrap();

    assert_eq!(world.text("/fake/bus/pci/drivers/vfio-pci/unbind"), BDF);
    assert_eq!(driver_override(&world), "\n");
}

#[test]
fn unbind_of_an_unbound_device_only_clears_the_override() {
    let mut world = World::new();
    world.add_device(BDF, None);

    unbind_from(&mut world, BDF).unwrap();

    assert_eq!(driver_override(&world), "\n");
    assert_eq!(world.writes.len(), 1);
}

// --- Modules -----------------------------------------------------------------

/// Lines as `depmod` writes them, including vfio-pci's catch-all, which
/// must not be mistaken for a variant driver's exact match.
const ALIASES: &str = "\
alias vfio_pci:v000015B3d0000101Esv*sd*bc*sc*i* mlx5_vfio_pci
alias vfio_pci:v000010DEd00002342sv*sd*bc*sc*i* nvgrace_gpu_vfio_pci
alias vfio_pci:v000010DEd00002345sv*sd*bc*sc*i* nvgrace_gpu_vfio_pci
alias vfio_pci:v000010DEd00002941sv*sd*bc*sc*i* nvgrace_gpu_vfio_pci
alias vfio_pci:v*d*sv*sd*bc*sc*i* vfio_pci
alias pci:v000010DEd00002330sv*sd*bc*sc*i* nvidia
";

fn module(vendor: u16, device: u16) -> String {
    let mut world = World::new();
    world.file("/lib/modules.alias", ALIASES);
    world
        .run(module_for("/lib/modules.alias", vendor, device))
        .unwrap()
}

#[test]
fn reads_the_module_out_of_the_alias_table() {
    for (device, expected) in [
        (0x2342, "nvgrace_gpu_vfio_pci"),
        (0x2345, "nvgrace_gpu_vfio_pci"),
        (0x2941, "nvgrace_gpu_vfio_pci"),
        (0x2330, "vfio-pci"),
        (0xffff, "vfio-pci"),
    ] {
        assert_eq!(module(0x10de, device), expected);
    }
}

#[test]
fn the_alias_match_is_on_vendor_and_device() {
    assert_eq!(module(0x8086, 0x2342), "vfio-pci");
    assert_eq!(module(0x15b3, 0x101e), "mlx5_vfio_pci");
}

#[test]
fn an_alias_table_that_is_not_there_is_reported() {
    let mut world = World::new();

    let err = world
        .run(module_for("/lib/modules.alias", 0x10de, 0x2342))
        .unwrap_err();

    assert_eq!(err.kind, ErrorKind::NotFound);
    assert!(err.message.starts_with("read /lib/modules.alias: "));
}

fn driver_of(world: &mut World, module: &str) -> Result<String, IoError> {
    world.run(driver_for(&sysfs(), module)?)
}

#[test]
fn resolves_a_module_to_the_driver_it_registers() {
    for module in ["nvgrace_gpu_vfio_pci", "nvgrace-gpu-vfio-pci"] {
        let mut world = World::new();
        world.dir("/fake/module/nvgrace_gpu_vfio_pci/drivers/pci:nvgrace-gpu-vfio-pci");
        world.dir("/fake/module/nvgrace_gpu_vfio_pci/drivers/zzz");

        assert_eq!(
            driver_of(&mut world, module).unwrap(),
            "nvgrace-gpu-vfio-pci"
        );
    }
}

#[test]
fn a_module_that_is_not_loaded_has_no_driver() {
    let mut world = World::new();

    let err = driver_of(&mut world, "nvgrace_gpu_vfio_pci").unwrap_err();

    assert_eq!(err.kind, ErrorKind::NotFound);
    assert!(err.message.contains("(is nvgrace_gpu_vfio_pci loaded?)"));
}

#[test]
fn refuses_a_module_name_that_is_not_one() {
    for module in ["../../../etc", "/etc", "vfio_pci/..", ""] {
        let mut world = World::new();

        let err = driver_of(&mut world, module).unwrap_err();

        assert_eq!(err.kind, ErrorKind::InvalidInput);
        assert_eq!(err.message, format!("{module:?} is not a module name"));
    }
}

#[test]
fn a_module_registering_no_pci_driver_has_none() {
    let mut world = World::new();
    world.dir("/fake/module/vfio/drivers/vfio_group");

    let err = driver_of(&mut world, "vfio").unwrap_err();

    assert_eq!(err.kind, ErrorKind::NotFound);
    assert_eq!(err.message, "module vfio registers no PCI driver");
}

#[test]
fn a_driver_entry_that_will_not_read_ends_the_search() {
    let mut world = World::new();
    world.dir("/fake/module/vfio/drivers/pci:vfio-pci");
    let drivers = "/fake/module/vfio/drivers";
    world.unreadable.insert(format!("{drivers}/zzz"));

    assert!(driver_of(&mut world, "vfio").is_err());

    // Not one behind the driver that was found.
    world.unreadable.clear();
    world.unreadable.insert(format!("{drivers}/aaa"));
    assert_eq!(driver_of(&mut world, "vfio").unwrap(), "vfio-pci");
}

// --- IOMMUFD -----------------------------------------------------------------

fn cdevs(world: &mut World) -> Vec<IommufdDev> {
    world.run(enumerate_iommufd(ROOT, &sysfs()))
}

fn cdev(world: &mut World, name: &str) -> Option<IommufdDev> {
    world.go_on(lookup_iommufd_dev(name, ROOT, &sysfs()))
}

#[test]
fn enumerates_and_sorts_by_num() {
    let mut world = World::default();
    world.add_cdev(42, "0x10de", "0x2330", "0x030200");
    world.add_cdev(7, "0x10de", "0x22a3", "0x068000");
    world.add_cdev(3, "0x15b3", "0x101e", "0x020000");

    let devs = cdevs(&mut world);
    assert_eq!(
        devs.iter().map(|d| d.num).collect::<Vec<_>>(),
        vec![3, 7, 42]
    );
    assert_eq!(devs[1].vendor, 0x10de);
    assert_eq!(devs[1].device, 0x22a3);
    assert_eq!(devs[1].class, 0x068000);
    assert!(devs[2].path.ends_with("devices/vfio42"));
}

#[test]
fn device_name_resolves_from_pci_ids() {
    let mut world = World::default();
    world.add_cdev(0, "0x10de", "0x2330", "0x030200");
    // A device id the database cannot know.
    world.add_cdev(1, "0x10de", "0xdead", "0x030200");

    let devs = cdevs(&mut world);
    let h100 = devs[0].device_name().expect("10de:2330 must be known");
    assert!(h100.contains("GH100"), "unexpected name: {}", h100);
    assert_eq!(devs[1].device_name(), None);
}

#[test]
fn class_prefix_drops_the_prog_if_byte() {
    let mut world = World::default();
    world.add_cdev(0, "0x10de", "0x2330", "0x030200");

    let devs = cdevs(&mut world);

    assert_eq!(devs[0].class_prefix(), 0x0302);
}

#[test]
fn missing_sysfs_entry_skipped() {
    let mut world = World::default();
    world.file("/fake/devices/vfio0", "");
    // no sysfs entry

    assert!(cdevs(&mut world).is_empty());
}

#[test]
fn missing_devices_dir_returns_empty() {
    let mut world = World::default();
    assert!(cdevs(&mut world).is_empty());
}

#[test]
fn an_identity_that_does_not_parse_is_skipped() {
    let mut world = World::default();
    world.add_cdev(0, "0x110de", "0x2330", "0x030200");
    world.add_cdev(1, "0x10de", "nonsense", "0x030200");
    world.add_cdev(2, "0x10de", "0x2330", "");
    world.file("/fake/devices/vfio", "");
    world.file("/fake/devices/vfio4294967296", "");

    assert!(cdevs(&mut world).is_empty());
}

#[test]
fn lookup_returns_dev_for_known_name() {
    let mut world = World::default();
    world.add_cdev(5, "0x10de", "0x22a3", "0x068000");

    let dev = cdev(&mut world, "vfio5").expect("should find vfio5");
    assert_eq!(dev.num, 5);
    assert_eq!(dev.vendor, 0x10de);
    assert_eq!(dev.device, 0x22a3);
    assert_eq!(dev.class, 0x068000);
    assert!(dev.path.ends_with("devices/vfio5"));
}

#[test]
fn lookup_returns_none_for_missing_sysfs() {
    let mut world = World::default();

    assert!(cdev(&mut world, "vfio99").is_none());
}

#[test]
fn lookup_returns_none_when_cdev_absent_but_sysfs_present() {
    let mut world = World::default();
    world.add_cdev(5, "0x10de", "0x22a3", "0x068000");
    // Sysfs files without the cdev entry under devices/.
    world.files.remove("/fake/devices/vfio5");

    assert!(cdev(&mut world, "vfio5").is_none());
}

#[test]
fn lookup_returns_none_for_bad_name() {
    let mut world = World::default();

    assert!(cdev(&mut world, "notavfio").is_none());
}

// --- The manager -------------------------------------------------------------

/// An e1000 as a QEMU guest sees one: the database knows both its ids
/// and its class.
const E1000: (u16, u16, u32) = (0x8086, 0x100e, 0x020000);

fn manager() -> PCIDeviceManager {
    PCIDeviceManager::new(sysfs())
}

fn all(world: &mut World, vendor: Option<u16>) -> Vec<PCIDevice> {
    world.run(manager().get_all_devices(vendor)).unwrap()
}

fn look_up(world: &mut World, address: &str) -> Result<Option<PCIDevice>, LookupError> {
    world
        .go_on(manager().get_device_by_pci_bus_id(address, None, DeviceCache::new()))
        .0
}

fn kind(err: LookupError) -> ErrorKind {
    match err {
        LookupError::Io(err) => err.kind,
        LookupError::Malformed(malformed) => panic!("{malformed:?}"),
    }
}

#[test]
fn enumeration_reads_a_device_and_names_it() {
    let mut world = World::new();
    let (vendor, device, class) = E1000;
    world.add_pci_device("0000:ff:1f.0", vendor, device, class, Some("igb"));

    let devices = all(&mut world, None);

    assert_eq!(devices.len(), 1);
    let found = &devices[0];
    assert_eq!(found.address, "0000:ff:1f.0");
    assert_eq!(found.device_path, world.device("0000:ff:1f.0"));
    assert_eq!(found.vendor, vendor);
    assert_eq!(found.device, device);
    assert_eq!(found.class, class);
    assert_eq!(found.device_name, "82540EM Gigabit Ethernet Controller");
    assert_eq!(found.class_name, "Network controller");
    assert_eq!(found.driver, "igb");
    assert_eq!(found.numa_node, 0);
}

#[test]
fn enumeration_reports_a_device_the_database_does_not_know() {
    let mut world = World::new();
    world.add_pci_device(BDF, 0xeeee, 0xeeee, 0x200000, None);

    let devices = all(&mut world, None);

    assert_eq!(devices[0].device_name, UNKNOWN_DEVICE);
    assert_eq!(devices[0].class_name, UNKNOWN_CLASS);
    assert_eq!(devices[0].driver, "");
}

#[test]
fn a_class_name_comes_from_the_base_class() {
    let mut world = World::new();
    world.add_pci_device("0000:03:00.0", 0x10de, 0x2330, 0x030200, None);

    let devices = all(&mut world, None);

    assert_eq!(devices[0].class_name, "Display controller");
    assert_eq!(devices[0].device_name, "GH100 [H100 SXM5 80GB]");
}

#[test]
fn enumeration_sorts_by_address() {
    let mut world = World::new();
    let (vendor, device, class) = E1000;
    for address in [
        "0000:ff:1f.0",
        "0001:00:00.0",
        "0000:03:00.1",
        "0000:03:00.0",
    ] {
        world.add_pci_device(address, vendor, device, class, None);
    }
    world.dir("/fake/bus/pci/devices/not-an-address");

    let devices = all(&mut world, None);

    assert_eq!(
        devices
            .iter()
            .map(|d| d.address.as_str())
            .collect::<Vec<_>>(),
        [
            "0000:03:00.0",
            "0000:03:00.1",
            "0000:ff:1f.0",
            "0001:00:00.0"
        ]
    );
}

#[test]
fn enumeration_without_a_pci_tree_fails() {
    let mut world = World::default();
    assert_eq!(
        kind(world.run(manager().get_all_devices(None)).unwrap_err()),
        ErrorKind::NotFound
    );

    let mut world = World::new();
    world
        .unreadable
        .insert("/fake/bus/pci/devices/zzz".to_string());
    assert!(world.run(manager().get_all_devices(None)).is_err());
}

#[test]
fn a_vendor_filter_keeps_only_that_vendor() {
    let mut world = World::new();
    let (vendor, device, class) = E1000;
    world.add_pci_device("0000:03:00.0", 0x10de, 0x2330, 0x030200, None);
    world.add_pci_device(BDF, vendor, device, class, None);

    let devices = all(&mut world, Some(0x10de));

    assert_eq!(devices.len(), 1);
    assert_eq!(devices[0].address, "0000:03:00.0");
}

#[test]
fn a_device_reports_the_iommu_group_it_is_in() {
    let mut world = World::new();
    world.add_pci_device("0000:03:00.0", 0x10de, 0x2330, 0x030200, Some("vfio-pci"));
    let link = format!("{}/iommu_group", world.device("0000:03:00.0"));
    world.link(&link, "/fake/kernel/iommu_groups/17");

    let devices = all(&mut world, None);

    assert_eq!(devices[0].iommu_group, 17);
}

#[test]
fn a_device_outside_an_iommu_group_reports_none() {
    let mut world = World::new();
    let (vendor, device, class) = E1000;
    world.add_pci_device("0000:03:00.0", vendor, device, class, None);

    let devices = all(&mut world, None);

    assert_eq!(devices[0].iommu_group, -1);
}

#[test]
fn numbers_that_do_not_parse_read_as_none() {
    let mut world = World::new();
    world.add_pci_device(BDF, 0x10de, 0x2330, 0x030200, None);
    let path = world.device(BDF);
    world.link(&format!("{path}/iommu_group"), "/fake/kernel/nonsense");
    world.file(&format!("{path}/numa_node"), "-1\n");
    assert_eq!(all(&mut world, None)[0].iommu_group, -1);
    assert_eq!(all(&mut world, None)[0].numa_node, -1);

    world.file(&format!("{path}/numa_node"), " 3 \n");
    assert_eq!(all(&mut world, None)[0].numa_node, 3);
}

/// Removing the tree is what proves the second read never reached
/// sysfs; the two spellings prove one device is one entry.
#[test]
fn a_second_lookup_of_a_device_comes_from_the_cache() {
    let mut world = World::new();
    world.add_pci_device("0000:03:00.0", 0x10de, 0x2330, 0x030200, None);

    let (first, cache) =
        world.go_on(manager().get_device_by_pci_bus_id("03:00.0", None, DeviceCache::new()));
    let first = first.unwrap().expect("the device should be found");
    let path = world.device("0000:03:00.0");
    world.remove_dir(&path);
    let (cached, cache) =
        world.go_on(manager().get_device_by_pci_bus_id("0000:03:00.0", Some(0x8086), cache));
    let cached = cached.unwrap().expect("the device should still be found");

    assert_eq!(cache.len(), 1);
    assert_eq!(cached.address, first.address);
    assert_eq!(cached.device_name, first.device_name);
    assert_eq!(cache.get("0000:03:00.0").unwrap().vendor, 0x10de);
    assert!(cache.get("03:00.0").is_none());
}

#[test]
fn a_later_entry_of_the_cache_counts() {
    let mut world = World::new();
    world.add_pci_device(BDF, 0x10de, 0x2330, 0x030200, None);
    let mut device = look_up(&mut world, BDF).unwrap().unwrap();
    let mut cache = DeviceCache::default();
    assert_eq!(cache.len(), 0);

    cache.insert(device.clone());
    device.vendor = 0x8086;
    cache.insert(device);

    assert_eq!(cache.len(), 1);
    assert_eq!(cache.get(BDF).unwrap().vendor, 0x8086);
}

#[test]
fn a_lookup_canonicalises_the_address_it_reports() {
    let mut world = World::new();
    let (vendor, device, class) = E1000;
    world.add_pci_device("0000:ff:1f.0", vendor, device, class, None);

    let found = look_up(&mut world, "FF:1F.0")
        .unwrap()
        .expect("the device should be found");

    assert_eq!(found.address, "0000:ff:1f.0");
}

#[test]
fn open_looks_under_the_root_the_device_came_from() {
    let mut world = World::new();
    let (vendor, device, class) = E1000;
    world.add_pci_device("0000:03:00.0", vendor, device, class, None);
    let device = &all(&mut world, None)[0];

    // No resource0 in the fake tree, so this cannot succeed; but the
    // error must name the fake root, not /sys/bus/pci/devices.
    let err = world.run(device.open().unwrap()).unwrap_err().message;

    assert!(err.contains(ROOT), "{err}");
}

#[test]
fn a_lookup_refuses_an_address_that_is_not_one() {
    for address in [
        "../../../etc/shadow",
        "0000:ff:1f.0/../../..",
        "/etc/shadow",
        "nonsense",
    ] {
        let mut world = World::new();

        let err = look_up(&mut world, address).unwrap_err();

        assert_eq!(kind(err), ErrorKind::InvalidInput);
    }
}

#[test]
fn a_lookup_refuses_a_vendor_id_it_cannot_parse() {
    let mut world = World::new();
    world.add_device("0000:03:00.0", None);
    let path = world.device("0000:03:00.0");
    world.file(&format!("{path}/vendor"), "nonsense\n");

    let err = look_up(&mut world, "0000:03:00.0").unwrap_err();

    assert_eq!(kind(err), ErrorKind::InvalidData);
}

#[test]
fn a_lookup_of_a_device_that_is_not_there_fails() {
    let mut world = World::new();

    let err = look_up(&mut world, "0000:03:00.0").unwrap_err();

    assert_eq!(kind(err), ErrorKind::NotFound);
}

#[test]
fn what_sysfs_never_prints_is_malformed() {
    let malformed = |file: &str, content: Option<&str>, target: &str| {
        let mut world = World::new();
        world.add_pci_device(BDF, 0x10de, 0x2330, 0x030200, None);
        let path = format!("{}/{file}", world.device(BDF));
        match content {
            Some(content) => world.file(&path, content),
            None => world.link(&path, target),
        }
        assert!(world.run(manager().get_all_devices(None)).is_err());
        match look_up(&mut world, BDF).unwrap_err() {
            LookupError::Malformed(malformed) => malformed,
            LookupError::Io(err) => panic!("{err:?}"),
        }
    };

    assert!(matches!(
        malformed("class", Some("nonsense"), ""),
        Malformed::Class(_)
    ));
    assert!(matches!(
        malformed("device", Some("0x12345"), ""),
        Malformed::Device(_)
    ));
    assert_eq!(malformed("driver", None, ".."), Malformed::DriverLink);
    assert_eq!(malformed("iommu_group", None, "/"), Malformed::IommuLink);
}

#[test]
fn a_pcie_function_has_an_extended_config_space() {
    for (size, expected) in [
        (PCI_CONFIG_SPACE_SZ + 1, true),
        (PCI_CONFIG_SPACE_SZ, false),
    ] {
        let mut world = World::new();
        world.add_device("0000:ff:00.0", None);
        let config = format!("{}/config", world.device("0000:ff:00.0"));
        world.files.insert(config, vec![0; size as usize]);

        assert_eq!(
            world.go_on(is_pcie_device("ff:00.0", &sysfs())),
            expected
        );
    }
}

#[test]
fn without_a_config_space_a_device_is_not_pcie() {
    for address in ["0000:ff:00.0", "0000:03:00.0", "../../../etc"] {
        let mut world = World::new();
        world.add_device("0000:ff:00.0", None);

        assert!(!world.go_on(is_pcie_device(address, &sysfs())));
    }
}

// --- InfiniBand --------------------------------------------------------------

const NO_DEV_DIR: &str = "/no/such/dev/infiniband";

fn snapshot(world: &mut World, dev_dir: &str) -> String {
    world.run(snapshot_infiniband(dev_dir, &sysfs()))
}

#[test]
fn a_snapshot_of_a_guest_without_rdma_lists_nothing() {
    let mut world = World::new();

    assert_eq!(
        snapshot(&mut world, NO_DEV_DIR),
        "ib_devices=[] uverbs=[] chardevs=[]"
    );
}

#[test]
fn a_snapshot_names_a_device_after_the_pci_function_behind_it() {
    let mut world = World::new();
    world.add_device("0000:03:00.0", Some("mlx5_core"));
    let ib = format!("{}/mlx5_0", sysfs().infiniband());
    let device = world.device("03:00.0");
    world.link(&format!("{ib}/device"), &device);
    world.file(&format!("{ib}/node_type"), "1: CA\n");
    world.file(&format!("{ib}/fw_ver"), "28.43.2026\n");
    let verbs = format!("{}/uverbs0", sysfs().infiniband_verbs());
    world.file(&format!("{verbs}/ibdev"), "mlx5_0\n");
    world.file(&format!("{verbs}/dev"), "231:192\n");

    let snapshot = snapshot(&mut world, NO_DEV_DIR);

    assert!(
        snapshot.contains(r#"mlx5_0=[bdf=0000:03:00.0,node_type="1: CA",fw=28.43.2026]"#),
        "{snapshot}"
    );
    assert!(
        snapshot.contains("uverbs0=[ibdev=mlx5_0,dev=231:192]"),
        "{snapshot}"
    );
}

#[test]
fn a_snapshot_lists_a_device_it_could_not_read() {
    let mut world = World::new();
    world.dir(&format!("{}/mlx5_0", sysfs().infiniband()));
    world.dir(&format!("{}/uverbs0", sysfs().infiniband_verbs()));

    let snapshot = snapshot(&mut world, NO_DEV_DIR);

    assert!(
        snapshot.contains(r#"mlx5_0=[bdf=<none>,node_type="",fw=]"#),
        "{snapshot}"
    );
    assert!(snapshot.contains("uverbs0=[ibdev=,dev=]"), "{snapshot}");
}

#[test]
fn a_snapshot_skips_what_is_not_a_verbs_device() {
    let mut world = World::new();
    world.file(&format!("{}/abi_version", sysfs().infiniband_verbs()), "6\n");

    assert_eq!(
        snapshot(&mut world, NO_DEV_DIR),
        "ib_devices=[] uverbs=[] chardevs=[]"
    );
}

/// `/dev/null` is a character device at 1:3 on every Linux kernel.
#[test]
fn a_snapshot_reports_a_device_node_by_major_and_minor() {
    let mut world = World::new();
    world.dir("/dev");
    world
        .nodes
        .insert("/dev/null".to_string(), (0o020666, 1 << 8 | 3));

    let snapshot = snapshot(&mut world, "/dev");

    assert!(snapshot.contains("null=[char,1:3]"), "{snapshot}");
}

#[test]
fn a_snapshot_splits_large_device_numbers() {
    let mut world = World::new();
    world.dir("/dev");
    let rdev = 0x1234_5000 << 32 | 0x678 << 8 | 0x9a_bc00 << 12 | 0xde;
    world.nodes.insert("/dev/big".to_string(), (0o060600, rdev));

    let snapshot = snapshot(&mut world, "/dev");

    assert!(
        snapshot.contains(&format!("big=[block,{}:{}]", 0x1234_5678, 0x9a_bcde)),
        "{snapshot}"
    );
}

#[test]
fn a_snapshot_reports_what_is_not_a_device_node() {
    let mut world = World::new();
    world.file("/fake/dev/infiniband/uverbs0", "");

    let snapshot = snapshot(&mut world, "/fake/dev/infiniband");

    assert!(
        snapshot.contains("chardevs=[uverbs0=[other,0:0]]"),
        "{snapshot}"
    );
}

/// A name that is not UTF-8 is shown as text, and looked at as it is.
#[test]
fn a_snapshot_looks_at_an_entry_under_its_own_name() {
    let mut world = World::new();
    let ib = format!("{}/mlx\u{ff}", sysfs().infiniband());
    world.link(&format!("{ib}/device"), "/0000:03:00.0");
    world.file(&format!("{ib}/node_type"), "1: CA\n");
    world.file(&format!("{ib}/fw_ver"), "28.43\n");
    let verbs = format!("{}/uverbs\u{ff}", sysfs().infiniband_verbs());
    world.file(&format!("{verbs}/ibdev"), "mlx\n");
    world.file(&format!("{verbs}/dev"), "231:192\n");
    world.dir("/dev");
    world
        .nodes
        .insert("/dev/\u{ff}".to_string(), (0o020666, 1 << 8 | 3));

    assert_eq!(
        snapshot(&mut world, "/dev"),
        [
            "ib_devices=[mlx\u{fffd}=[bdf=0000:03:00.0,node_type=\"1: CA\",fw=28.43]]",
            "uverbs=[uverbs\u{fffd}=[ibdev=mlx,dev=231:192]]",
            "chardevs=[\u{fffd}=[char,1:3]]",
        ]
        .join(" ")
    );
}

// --- Finding and opening GPUs and switches -----------------------------------

const GH100: u16 = 0x2330;
const GB100: u16 = 0x2901;
/// A100: enumerable, but no CC.
const AMPERE: u16 = 0x20b0;
/// An NVSwitch, which is known by its class and not this id.
const NVSWITCH: u16 = 0x22a3;
const NVSWITCH_CLASS: u32 = 0x068000;
const NVSWITCH_GEN3: u32 = 0x7000a1;
const GPU_CLASS: u32 = 0x030200;
const BAR0_LEN: u64 = 16 << 20;

#[test]
fn discovery_lists_cc_capable_gpus_in_address_order() {
    let mut world = World::new();
    world.add_pci_device("0000:65:00.0", 0x10de, GH100, GPU_CLASS, None);
    world.add_pci_device("0000:03:00.0", 0x10de, GB100, GPU_CLASS, None);
    world.add_pci_device("0000:04:00.0", 0x8086, 0x100e, 0x020000, None);
    world.add_pci_device("0000:05:00.0", 0x10de, AMPERE, GPU_CLASS, None);
    world.add_device("0000:06:00.0", None); // no ids to read
    world.dir("/fake/bus/pci/devices/not-an-address");

    assert_eq!(
        world.run(discover(&sysfs())).unwrap(),
        ["0000:03:00.0", "0000:65:00.0"]
    );
    assert!(world.writes.is_empty());
}

#[test]
fn switch_discovery_lists_nvidia_bridges_in_address_order() {
    let mut world = World::new();
    world.add_pci_device("0000:0a:00.0", 0x10de, NVSWITCH, NVSWITCH_CLASS, None);
    world.add_pci_device("0000:09:00.0", 0x10de, NVSWITCH, NVSWITCH_CLASS, None);
    world.add_pci_device("0000:0b:00.0", 0x1af4, 0x1000, NVSWITCH_CLASS, None);
    world.add_pci_device("0000:0c:00.0", 0x10de, GH100, GPU_CLASS, None);
    world.dir("/fake/bus/pci/devices/not-an-address");

    assert_eq!(
        world.run(discover_switches(&sysfs())).unwrap(),
        ["0000:09:00.0", "0000:0a:00.0"]
    );
}

#[test]
fn discovery_without_a_pci_tree_fails() {
    let mut world = World::default();

    let err = world.run(discover(&sysfs())).unwrap_err();
    assert!(matches!(err, CcError::PciTree(_)));
    assert!(err.message().starts_with("read sysfs PCI tree: "));
    assert!(world.run(discover_switches(&sysfs())).is_err());
}

#[test]
fn discovery_fails_on_an_entry_that_will_not_read() {
    let mut world = World::new();
    world
        .unreadable
        .insert("/fake/bus/pci/devices/zzz".to_string());

    let err = world.run(discover(&sysfs())).unwrap_err();

    assert!(matches!(err, CcError::Io(_)));
}

fn open_gpu(world: &mut World) -> Result<Gpu, CcError> {
    world.run(Gpu::open_in(&sysfs(), BDF).unwrap())
}

fn open_switch(world: &mut World) -> Result<NvSwitch, CcError> {
    world.run(NvSwitch::open_in(&sysfs(), BDF).unwrap())
}

#[test]
fn opening_a_gpu_names_its_chip() {
    let mut world = World::new();
    world.add_mappable_device(BDF, 0x10de, GH100, GPU_CLASS, BAR0_LEN);

    let gpu = open_gpu(&mut world).unwrap();

    assert_eq!(gpu.chip.name, "GH100");
    assert_eq!((gpu.bdf(), gpu.devid()), (BDF, GH100));
    assert!(!gpu.c2c);
}

#[test]
fn opening_a_blackwell_gpu_waits_for_the_bar0_firewall() {
    let mut world = World::new();
    world.add_mappable_device(BDF, 0x10de, GB100, GPU_CLASS, BAR0_LEN);

    assert_eq!(open_gpu(&mut world).unwrap().chip.name, "GB100");

    world.registers.insert(0, 0xffff_ffff);
    let err = open_gpu(&mut world).unwrap_err().message();
    assert_eq!(err, "timed out waiting for BAR0 firewall");
    assert!(world.clock > 15_000_000_000);
}

#[test]
fn enumeration_opens_every_gpu_it_discovers() {
    let mut world = World::new();
    world.add_mappable_device(BDF, 0x10de, GH100, GPU_CLASS, BAR0_LEN);
    world.add_mappable_device("0000:03:00.0", 0x10de, GB100, GPU_CLASS, BAR0_LEN);

    let gpus = world.run(Gpu::enumerate(&sysfs())).unwrap();

    assert_eq!(gpus.len(), 2);
    assert_eq!(gpus[0].bdf(), "0000:03:00.0");
    assert_eq!(gpus[1].bdf(), BDF);
}

#[test]
fn a_failed_enumeration_closes_what_it_had_opened() {
    let mut world = World::new();
    world.add_mappable_device(BDF, 0x10de, GH100, GPU_CLASS, BAR0_LEN);
    world.add_mappable_device("0000:03:00.0", 0x10de, GB100, GPU_CLASS, BAR0_LEN);
    let resource0 = at(&world, "resource0");
    world.files.remove(&resource0);

    let err = world.run(Gpu::enumerate(&sysfs())).unwrap_err().message();

    assert!(err.contains("resource0"), "{err}");
    let other = world.device("0000:03:00.0");
    assert_eq!(world.text(&format!("{other}/power/control")), "auto");
    assert_eq!(
        world.files[&format!("{other}/config")][PCI_COMMAND as usize],
        0
    );
}

#[test]
fn enumeration_without_a_tree_fails() {
    let mut world = World::default();

    assert!(world.run(Gpu::enumerate(&sysfs())).is_err());
    assert!(world.run(NvSwitch::enumerate(&sysfs())).is_err());
    let mut world = World::new();
    assert!(world.run(Gpu::enumerate(&sysfs())).unwrap().is_empty());
}

#[test]
fn opening_refuses_what_is_not_a_cc_capable_gpu() {
    for (vendor, devid, expected) in [
        (0x8086, GH100, "is not NVIDIA"),
        (0x10de, AMPERE, "is not a CC-capable GPU"),
    ] {
        let mut world = World::new();
        world.add_mappable_device(BDF, vendor, devid, GPU_CLASS, BAR0_LEN);

        let err = open_gpu(&mut world).unwrap_err().message();

        assert!(err.contains(expected), "{err}");
        assert_eq!(world.text(&at(&world, "power/control")), "auto");
        assert_eq!(command_byte(&world), 0);
    }
}

#[test]
fn opening_refuses_a_gpu_that_will_not_answer() {
    for (boot0, expected) in [
        (0xffff_ffff, "BAR0 not accessible"),
        (0xbadf_0200, "security-fault state"),
        (0xbad0_0200, "security-fault state"),
    ] {
        let mut world = World::new();
        world.add_mappable_device(BDF, 0x10de, GH100, GPU_CLASS, BAR0_LEN);
        world.registers.insert(0, boot0);

        let err = open_gpu(&mut world).unwrap_err().message();

        assert!(err.contains(expected), "{err}");
        assert_eq!(world.text(&at(&world, "power/control")), "auto");
    }
}

#[test]
fn opening_by_address_alone_reads_the_running_kernel() {
    assert!(Gpu::open("nonsense").is_err());
    assert!(NvSwitch::open("nonsense").is_err());
    assert!(Gpu::open(BDF).is_ok());
}

#[test]
fn opening_a_switch_names_its_generation() {
    let mut world = World::new();
    world.add_mappable_device(BDF, 0x10de, NVSWITCH, NVSWITCH_CLASS, BAR0_LEN);
    world.registers.insert(0, NVSWITCH_GEN3);

    let switch = open_switch(&mut world).unwrap();

    assert_eq!((switch.switch.name, switch.bdf()), ("NVSwitch_gen3", BDF));
}

#[test]
fn opening_refuses_what_is_not_a_ppcie_capable_switch() {
    for (vendor, boot0, expected) in [
        (0x1af4, NVSWITCH_GEN3, "is not NVIDIA"),
        (0x10de, 0xffff_ffff, "BAR0 not accessible"),
        (0x10de, 0x6000a1, "not a PPCIE-capable NVSwitch"),
    ] {
        let mut world = World::new();
        world.add_mappable_device(BDF, vendor, NVSWITCH, NVSWITCH_CLASS, BAR0_LEN);
        world.registers.insert(0, boot0);

        let err = open_switch(&mut world).unwrap_err().message();

        assert!(err.contains(expected), "{err}");
    }
}

#[test]
fn switch_enumeration_opens_every_switch_it_discovers() {
    let mut world = World::new();
    world.add_mappable_device(BDF, 0x10de, NVSWITCH, NVSWITCH_CLASS, BAR0_LEN);
    world.registers.insert(0, NVSWITCH_GEN3);

    let switches = world.run(NvSwitch::enumerate(&sysfs())).unwrap();

    assert_eq!(switches.len(), 1);
    assert_eq!(switches[0].bdf(), BDF);
}

// --- What holds of all of them -----------------------------------------------

/// Runs a procedure and returns the operations it asked for.
fn asked<P: Procedure>(world: &mut World, procedure: P) -> Vec<Op> {
    let mut ops = Vec::new();
    let mut procedure = procedure;
    loop {
        let reply = world.answer(procedure.op());
        ops.push(procedure.op());
        match procedure.resume(reply) {
            Step::Next(next) => procedure = next,
            Step::Done(_) => return ops,
        }
    }
}

fn only_reads(ops: &[Op]) -> bool {
    ops.iter().all(|op| {
        matches!(
            op,
            Op::Exists(_)
                | Op::IsDir(_)
                | Op::ReadText(_)
                | Op::ReadLink(_)
                | Op::ReadEntryText(_, _, _)
                | Op::ReadEntryLink(_, _, _)
                | Op::ListDir(_)
                | Op::FileLen(_)
                | Op::StatEntry(_, _)
        )
    })
}

#[test]
fn finding_something_out_changes_nothing() {
    let mut world = World::new();
    world.add_mappable_device(BDF, 0x10de, GH100, GPU_CLASS, BAR0_LEN);
    world.add_cdev(5, "0x10de", "0x22a3", "0x068000");
    let files = world.files.clone();

    let ops = [
        asked(&mut world, discover(&sysfs())),
        asked(&mut world, discover_switches(&sysfs())),
        asked(&mut world, manager().get_all_devices(None)),
        asked(&mut world, enumerate_iommufd(ROOT, &sysfs())),
        asked(&mut world, snapshot_infiniband(NO_DEV_DIR, &sysfs())),
        asked(&mut world, module_for("/modules.alias", 0x10de, GH100)),
    ];

    assert!(ops.iter().all(|ops| only_reads(ops)), "{ops:?}");
    assert_eq!(world.files, files);
}

/// A vendor that is not asked for ends a lookup; one that is, or none at all,
/// has the other five facts read.
#[test]
fn nothing_more_is_asked_of_a_function_of_another_vendor() {
    let mut world = World::new();
    world.add_mappable_device(BDF, 0x10de, GH100, GPU_CLASS, BAR0_LEN);

    let mut count = |vendor| asked(&mut world, manager().get_all_devices(vendor)).len();

    assert_eq!(count(Some(0x8086)), 2);
    assert_eq!(count(Some(0x10de)), 7);
    assert_eq!(count(None), 7);
}

/// The first id that is missing ends the look at a cdev, and not at the others.
#[test]
fn nothing_more_is_asked_of_a_cdev_without_an_identity() {
    let mut world = World::default();
    world.add_cdev(5, "0x10de", "0x22a3", "0x068000");
    let whole = asked(&mut world, enumerate_iommufd(ROOT, &sysfs())).len();

    world.add_cdev(6, "nonsense", "0x22a3", "0x068000");
    let more = asked(&mut world, enumerate_iommufd(ROOT, &sysfs())).len();

    assert_eq!(whole, 4);
    assert_eq!(more, whole + 1);
    assert_eq!(cdevs(&mut world).len(), 1);
}

/// Two attributes of a device, and its registers left alone.
#[test]
fn discovery_reads_two_attributes_of_a_device() {
    let mut world = World::new();
    world.add_mappable_device(BDF, 0x10de, GH100, GPU_CLASS, BAR0_LEN);

    let ops = asked(&mut world, discover(&sysfs()));

    let dir = world.device(BDF);
    assert_eq!(
        format!("{ops:?}"),
        format!(
            "{:?}",
            [
                Op::ListDir(sysfs().devices()),
                Op::ReadText(format!("{dir}/vendor")),
                Op::ReadText(format!("{dir}/device")),
            ]
        )
    );
}

#[test]
fn a_default_device_belongs_to_the_running_kernel() {
    let device = PCIDevice::default();

    assert_eq!((device.vendor, device.device, device.class), (0, 0, 0));
    assert_eq!(device.address, "");
    assert_eq!(device.sysfs.devices(), "/sys/bus/pci/devices");
    assert_eq!(device.open().unwrap_err().kind, ErrorKind::InvalidInput);
}

/// A device that is refused is put back before the refusal is told.
#[test]
fn a_refused_device_is_put_back() {
    let mut world = World::new();
    world.add_mappable_device(BDF, 0x10de, AMPERE, GPU_CLASS, BAR0_LEN);

    assert!(open_gpu(&mut world).is_err());

    assert_eq!(world.text(&at(&world, "power/control")), "auto");
    assert_eq!(command_byte(&world) & PCI_COMMAND_MEMORY as u8, 0);
}
