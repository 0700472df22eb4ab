//! The vfio drivers by name.

use vstd::prelude::*;

use crate::text::same_text;

verus! {

/// Device driver for vfio-pci guest kernel driver.
pub const DRIVER_VFIO_PCI_GK_TYPE: &'static str = "vfio-pci-gk";

/// Device driver for vfio-pci.
pub const DRIVER_VFIO_PCI_TYPE: &'static str = "vfio-pci";

/// Device driver for vfio-ap hotplug.
pub const DRIVER_VFIO_AP_TYPE: &'static str = "vfio-ap";

/// Device driver for vfio-ap coldplug.
pub const DRIVER_VFIO_AP_COLD_TYPE: &'static str = "vfio-ap-cold";

pub fn is_vfio_device_type(device_type: &str) -> (r: bool)
    ensures
        r <==> device_type@ == DRIVER_VFIO_PCI_TYPE@ || device_type@ == DRIVER_VFIO_PCI_GK_TYPE@
            || device_type@ == DRIVER_VFIO_AP_TYPE@ || device_type@ == DRIVER_VFIO_AP_COLD_TYPE@,
{
    same_text(device_type, DRIVER_VFIO_PCI_TYPE) || same_text(device_type, DRIVER_VFIO_PCI_GK_TYPE)
        || same_text(device_type, DRIVER_VFIO_AP_TYPE) || same_text(
        device_type,
        DRIVER_VFIO_AP_COLD_TYPE,
    )
}

/// The drivers go by the names that their modules register.
pub proof fn the_drivers_are_called_so()
    ensures
        DRIVER_VFIO_PCI_TYPE@ == "vfio-pci"@,
        DRIVER_VFIO_PCI_GK_TYPE@ == "vfio-pci-gk"@,
        DRIVER_VFIO_AP_TYPE@ == "vfio-ap"@,
        DRIVER_VFIO_AP_COLD_TYPE@ == "vfio-ap-cold"@,
{
}

} // verus!
