//! Sysfs paths, off an injectable mount point so tests can point them at a
//! tree of their own rather than the running kernel.

use vstd::prelude::*;

use crate::bdf::{canonical, canonical_is_one_plain_component, normalize_bdf};
use crate::path::{component_stays_below, entry_name, is_component, is_plain_component, join};
use crate::path::joined_path;
use crate::text::{chars, replace, replaced, text};

verus! {

pub const SYSFS: &'static str = "/sys";

/// A sysfs mount point.
#[derive(Debug)]
pub struct Sysfs {
    root: String,
}

impl Clone for Sysfs {
    fn clone(&self) -> (r: Self)
        ensures
            r.root() == self.root(),
    {
        Sysfs { root: self.root.clone() }
    }
}

impl Default for Sysfs {
    fn default() -> (r: Self)
        ensures
            r.root() == SYSFS@,
    {
        Sysfs::new(SYSFS)
    }
}

/// Where the PCI bus lives below `root`.
pub open spec fn bus_pci_dir(root: Seq<char>) -> Seq<char> {
    joined_path(root, "bus/pci"@)
}

/// Where the PCI devices live below `root`.
pub open spec fn devices_dir(root: Seq<char>) -> Seq<char> {
    joined_path(bus_pci_dir(root), "devices"@)
}

/// Where a device class lives below `root`.
pub open spec fn class_dir(root: Seq<char>, name: Seq<char>) -> Seq<char> {
    joined_path(joined_path(root, "class"@), name)
}

/// The directory of the device that `address` names, if it is an address.
pub open spec fn device_dir(root: Seq<char>, address: Seq<char>) -> Option<Seq<char>> {
    match canonical(address) {
        Some(bdf) => Some(joined_path(devices_dir(root), bdf)),
        None => None,
    }
}

/// The directory of the driver called `name`, if that is a name.
pub open spec fn driver_dir(root: Seq<char>, name: Seq<char>) -> Option<Seq<char>> {
    if is_plain_component(name) {
        Some(joined_path(joined_path(bus_pci_dir(root), "drivers"@), name))
    } else {
        None
    }
}

/// The directory of the module called `name` in either spelling, if that is a
/// name.
pub open spec fn module_dir(root: Seq<char>, name: Seq<char>) -> Option<Seq<char>> {
    if is_plain_component(replaced(name, '-', '_')) {
        Some(joined_path(joined_path(root, "module"@), replaced(name, '-', '_')))
    } else {
        None
    }
}

impl Sysfs {
    pub closed spec fn root(&self) -> Seq<char> {
        self.root@
    }

    pub fn new(root: &str) -> (r: Self)
        ensures
            r.root() == root@,
    {
        Sysfs { root: text(&chars(root)) }
    }

    pub fn bus_pci(&self) -> (r: String)
        ensures
            r@ == bus_pci_dir(self.root()),
    {
        join(&self.root, "bus/pci")
    }

    pub fn devices(&self) -> (r: String)
        ensures
            r@ == devices_dir(self.root()),
    {
        join(&self.bus_pci(), "devices")
    }

    /// `None` unless the address is one, since this is where it becomes a
    /// path.
    pub fn device(&self, address: &str) -> (r: Option<String>)
        ensures
            match r {
                Some(path) => device_dir(self.root(), address@) == Some(path@),
                None => device_dir(self.root(), address@) is None,
            },
    {
        match normalize_bdf(address) {
            Some(bdf) => Some(join(&self.devices(), &bdf)),
            None => None,
        }
    }

    /// Preferred over a driver's own `bind`, which ignores `driver_override`.
    pub fn drivers_probe(&self) -> (r: String)
        ensures
            r@ == joined_path(bus_pci_dir(self.root()), "drivers_probe"@),
    {
        join(&self.bus_pci(), "drivers_probe")
    }

    /// Absent unless the driver is registered, i.e. its module is loaded.
    ///
    /// `None` unless the name is one, since this is where it becomes a path.
    pub fn driver(&self, name: &str) -> (r: Option<String>)
        ensures
            match r {
                Some(path) => driver_dir(self.root(), name@) == Some(path@),
                None => driver_dir(self.root(), name@) is None,
            },
    {
        if is_component(name) {
            Some(join(&join(&self.bus_pci(), "drivers"), name))
        } else {
            None
        }
    }

    /// Where a loaded module lists the drivers it registers.  Takes either
    /// spelling: modprobe answers to `vfio-pci`, sysfs only to `vfio_pci`.
    ///
    /// `None` unless the name is one, since this is where it becomes a path.
    pub fn module(&self, name: &str) -> (r: Option<String>)
        ensures
            match r {
                Some(path) => module_dir(self.root(), name@) == Some(path@),
                None => module_dir(self.root(), name@) is None,
            },
    {
        let name: String = text(&replace(&chars(name), '-', '_'));
        if is_component(&name) {
            Some(join(&join(&self.root, "module"), &name))
        } else {
            None
        }
    }

    /// Empty when the IOMMU is off.  Beats the kernel command line, where
    /// the option is architecture-specific and often implicit.
    pub fn iommu_groups(&self) -> (r: String)
        ensures
            r@ == joined_path(self.root(), "kernel/iommu_groups"@),
    {
        join(&self.root, "kernel/iommu_groups")
    }

    fn class(&self, name: &str) -> (r: String)
        ensures
            r@ == class_dir(self.root(), name@),
    {
        join(&join(&self.root, "class"), name)
    }

    /// `<name>/device` links to the PCI function behind a vfio character
    /// device.
    pub fn vfio_dev(&self, name: &str) -> (r: String)
        ensures
            r@ == joined_path(class_dir(self.root(), "vfio-dev"@), name@),
    {
        join(&self.class("vfio-dev"), name)
    }

    pub fn infiniband(&self) -> (r: String)
        ensures
            r@ == class_dir(self.root(), "infiniband"@),
    {
        self.class("infiniband")
    }

    /// Only the devices userspace can open verbs on, which is not every
    /// InfiniBand device: a separate tree, not a subset of one.
    pub fn infiniband_verbs(&self) -> (r: String)
        ensures
            r@ == class_dir(self.root(), "infiniband_verbs"@),
    {
        self.class("infiniband_verbs")
    }
}

/// No address leads out of the devices directory: what it becomes sits right
/// below it, under the canonical spelling.
pub proof fn device_stays_below_devices(root: Seq<char>, address: Seq<char>)
    ensures
        device_dir(root, address) matches Some(path) ==> {
            let devices = devices_dir(root);
            &&& path == devices + seq!['/'] + canonical(address)->0
            &&& entry_name(path) == canonical(address)
        },
{
    if let Some(bdf) = canonical(address) {
        canonical_is_one_plain_component(address);
        reveal_strlit("devices");
        let devices = devices_dir(root);
        assert(devices.last() == 's');
        component_stays_below(devices, bdf);
    }
}

/// No driver name leads out of the drivers directory.
pub proof fn driver_stays_below_drivers(root: Seq<char>, name: Seq<char>)
    ensures
        driver_dir(root, name) matches Some(path) ==> {
            &&& path == joined_path(bus_pci_dir(root), "drivers"@) + seq!['/'] + name
            &&& entry_name(path) == Some(name)
        },
{
    if is_plain_component(name) {
        reveal_strlit("drivers");
        assert(joined_path(bus_pci_dir(root), "drivers"@).last() == 's');
        component_stays_below(joined_path(bus_pci_dir(root), "drivers"@), name);
    }
}

/// No module name leads out of the module directory, and both spellings of a
/// name lead to the same place in it.
pub proof fn module_stays_below_modules(root: Seq<char>, name: Seq<char>)
    ensures
        module_dir(root, name) matches Some(path) ==> {
            let plain = replaced(name, '-', '_');
            &&& path == joined_path(root, "module"@) + seq!['/'] + plain
            &&& entry_name(path) == Some(plain)
        },
        module_dir(root, replaced(name, '-', '_')) == module_dir(root, name),
{
    let plain = replaced(name, '-', '_');
    assert(replaced(plain, '-', '_') =~= plain);
    if is_plain_component(plain) {
        reveal_strlit("module");
        assert(joined_path(root, "module"@).last() == 'e');
        component_stays_below(joined_path(root, "module"@), plain);
    }
}

/// The literals of the tree, each as the one before it and an entry below.
proof fn lemma_literals()
    ensures
        "bus/pci"@.len() > 0 && "bus/pci"@[0] != '/' && "bus/pci"@.last() != '/',
        "devices"@.len() > 0 && "devices"@[0] != '/' && "devices"@.last() != '/',
        "drivers"@.len() > 0 && "drivers"@[0] != '/' && "drivers"@.last() != '/',
        "class"@.len() > 0 && "class"@[0] != '/' && "class"@.last() != '/',
        "module"@.len() > 0 && "module"@[0] != '/' && "module"@.last() != '/',
        "drivers_probe"@.len() > 0 && "drivers_probe"@[0] != '/',
        "kernel/iommu_groups"@.len() > 0 && "kernel/iommu_groups"@[0] != '/',
{
    reveal_strlit("bus/pci");
    reveal_strlit("devices");
    reveal_strlit("drivers");
    reveal_strlit("class");
    reveal_strlit("module");
    reveal_strlit("drivers_probe");
    reveal_strlit("kernel/iommu_groups");
}

proof fn lemma_bus_literals()
    ensures
        "/bus/pci"@ == seq!['/'] + "bus/pci"@,
        "/bus/pci/devices"@ == seq!['/'] + "bus/pci"@ + seq!['/'] + "devices"@,
        "/bus/pci/devices/"@ == seq!['/'] + "bus/pci"@ + seq!['/'] + "devices"@ + seq!['/'],
        "/bus/pci/drivers/"@ == seq!['/'] + "bus/pci"@ + seq!['/'] + "drivers"@ + seq!['/'],
        "/bus/pci/drivers_probe"@ == seq!['/'] + "bus/pci"@ + seq!['/'] + "drivers_probe"@,
{
    reveal_strlit("bus/pci");
    assert("/bus/pci"@ =~= seq!['/'] + "bus/pci"@) by {
        reveal_strlit("/bus/pci");
    }
    assert("/bus/pci/devices"@ =~= seq!['/'] + "bus/pci"@ + seq!['/'] + "devices"@) by {
        reveal_strlit("devices");
        reveal_strlit("/bus/pci/devices");
    }
    assert("/bus/pci/devices/"@ =~= seq!['/'] + "bus/pci"@ + seq!['/'] + "devices"@ + seq!['/']) by {
        reveal_strlit("devices");
        reveal_strlit("/bus/pci/devices/");
    }
    assert("/bus/pci/drivers/"@ =~= seq!['/'] + "bus/pci"@ + seq!['/'] + "drivers"@ + seq!['/']) by {
        reveal_strlit("drivers");
        reveal_strlit("/bus/pci/drivers/");
    }
    assert("/bus/pci/drivers_probe"@ =~= seq!['/'] + "bus/pci"@ + seq!['/'] + "drivers_probe"@) by {
        reveal_strlit("drivers_probe");
        reveal_strlit("/bus/pci/drivers_probe");
    }
}

proof fn lemma_other_literals()
    ensures
        "/kernel/iommu_groups"@ == seq!['/'] + "kernel/iommu_groups"@,
        "/class/"@ == seq!['/'] + "class"@ + seq!['/'],
        "/module/"@ == seq!['/'] + "module"@ + seq!['/'],
{
    assert("/kernel/iommu_groups"@ =~= seq!['/'] + "kernel/iommu_groups"@) by {
        reveal_strlit("kernel/iommu_groups");
        reveal_strlit("/kernel/iommu_groups");
    }
    assert("/class/"@ =~= seq!['/'] + "class"@ + seq!['/']) by {
        reveal_strlit("class");
        reveal_strlit("/class/");
    }
    assert("/module/"@ =~= seq!['/'] + "module"@ + seq!['/']) by {
        reveal_strlit("module");
        reveal_strlit("/module/");
    }
}

/// One entry below another.
proof fn lemma_below(base: Seq<char>, part: Seq<char>)
    requires
        base.len() > 0,
        base.last() != '/',
        part.len() > 0,
        part[0] != '/',
    ensures
        joined_path(base, part) == base + seq!['/'] + part,
        joined_path(base, part).len() > 0,
        joined_path(base, part).last() == part.last(),
{
}

/// Two entries below a mount point.
proof fn lemma_below_twice(root: Seq<char>, one: Seq<char>, two: Seq<char>)
    requires
        root.len() > 0,
        root.last() != '/',
        one.len() > 0,
        one[0] != '/',
        one.last() != '/',
        two.len() > 0,
        two[0] != '/',
    ensures
        joined_path(joined_path(root, one), two) == root + (seq!['/'] + one + seq!['/'] + two),
        joined_path(joined_path(root, one), two).last() == two.last(),
{
    lemma_below(root, one);
    lemma_below(joined_path(root, one), two);
    assert(joined_path(joined_path(root, one), two) =~= root + (seq!['/'] + one + seq!['/'] + two));
}

/// An entry below two below a mount point.
proof fn lemma_below_thrice(root: Seq<char>, one: Seq<char>, two: Seq<char>, three: Seq<char>)
    requires
        root.len() > 0,
        root.last() != '/',
        one.len() > 0,
        one[0] != '/',
        one.last() != '/',
        two.len() > 0,
        two[0] != '/',
        two.last() != '/',
        three.len() > 0,
        three[0] != '/',
    ensures
        joined_path(joined_path(joined_path(root, one), two), three) == root + (seq!['/'] + one
            + seq!['/'] + two + seq!['/']) + three,
{
    let dir = joined_path(joined_path(root, one), two);
    lemma_below_twice(root, one, two);
    lemma_below(dir, three);
    assert(dir + seq!['/'] + three =~= root + (seq!['/'] + one + seq!['/'] + two + seq!['/'])
        + three);
}

/// Where the bus and its devices are below a mount point, spelled out.
pub proof fn the_bus_is_laid_out_so(root: Seq<char>, address: Seq<char>)
    requires
        root.len() > 0,
        root.last() != '/',
    ensures
        SYSFS@ == "/sys"@,
        bus_pci_dir(root) == root + "/bus/pci"@,
        devices_dir(root) == root + "/bus/pci/devices"@,
        joined_path(bus_pci_dir(root), "drivers_probe"@) == root + "/bus/pci/drivers_probe"@,
        canonical(address) matches Some(bdf) ==> device_dir(root, address) == Some(
            root + "/bus/pci/devices/"@ + bdf,
        ),
        canonical(address) is None ==> device_dir(root, address) is None,
{
    lemma_literals();
    lemma_bus_literals();
    lemma_below(root, "bus/pci"@);
    assert(root + seq!['/'] + "bus/pci"@ =~= root + "/bus/pci"@);
    lemma_below_twice(root, "bus/pci"@, "devices"@);
    lemma_below_twice(root, "bus/pci"@, "drivers_probe"@);
    if let Some(bdf) = canonical(address) {
        canonical_is_one_plain_component(address);
        assert(bdf.len() > 0 && bdf[0] != '/');
        lemma_below_thrice(root, "bus/pci"@, "devices"@, bdf);
    }
}

/// Where drivers, classes, modules and IOMMU groups are below a mount point,
/// spelled out.
pub proof fn the_tree_is_laid_out_so(root: Seq<char>, name: Seq<char>)
    requires
        root.len() > 0,
        root.last() != '/',
    ensures
        joined_path(root, "kernel/iommu_groups"@) == root + "/kernel/iommu_groups"@,
        is_plain_component(name) ==> driver_dir(root, name) == Some(
            root + "/bus/pci/drivers/"@ + name,
        ),
        is_plain_component(name) ==> class_dir(root, name) == root + "/class/"@ + name,
        is_plain_component(name) && !name.contains('-') ==> module_dir(root, name) == Some(
            root + "/module/"@ + name,
        ),
        !is_plain_component(name) ==> driver_dir(root, name) is None,
{
    lemma_literals();
    lemma_bus_literals();
    lemma_other_literals();
    lemma_below(root, "kernel/iommu_groups"@);
    assert(root + seq!['/'] + "kernel/iommu_groups"@ =~= root + "/kernel/iommu_groups"@);
    if is_plain_component(name) {
        assert(name[0] != '/');
        lemma_below_thrice(root, "bus/pci"@, "drivers"@, name);
        lemma_below_twice(root, "class"@, name);
        assert(root + (seq!['/'] + "class"@ + seq!['/'] + name) =~= root + "/class/"@ + name);
        if !name.contains('-') {
            assert(replaced(name, '-', '_') =~= name);
            lemma_below_twice(root, "module"@, name);
            assert(root + (seq!['/'] + "module"@ + seq!['/'] + name) =~= root + "/module/"@ + name);
        }
    }
}

} // verus!
