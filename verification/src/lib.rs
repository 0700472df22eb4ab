//! PCI functions as Linux exposes them: who they are, which driver holds them,
//! what their registers read, and the confidential computing modes of NVIDIA's
//! GPUs and switches.
//!
//! The library decides and the caller does: whatever touches a file, a
//! register or the clock is a [`kernel::Procedure`], which names one
//! [`kernel::Op`] at a time and is resumed with the [`kernel::Reply`].

pub mod attr;
pub mod bdf;
pub mod cc;
pub mod driver;
pub mod infiniband;
pub mod inquiry;
pub mod iommufd;
pub mod kernel;
pub mod listing;
pub mod number;
pub mod path;
pub mod pci_dev;
pub mod pci_ids;
pub mod pci_manager;
pub mod sort;
pub mod sysfs;
pub mod text;
pub mod vfio;

pub use attr::attr_hex;
pub use bdf::{normalize_bdf, PCI_DEV_DOMAIN};
pub use driver::{
    is_vfio_device_type, DRIVER_VFIO_AP_COLD_TYPE, DRIVER_VFIO_AP_TYPE, DRIVER_VFIO_PCI_GK_TYPE,
    DRIVER_VFIO_PCI_TYPE,
};
pub use infiniband::{snapshot_infiniband, INFINIBAND_DEV_DIR};
pub use iommufd::{
    enumerate_iommufd, is_passthrough_capable_class, lookup_iommufd_dev, IommufdDev,
    IOMMUFD_VFIO_DIR,
};
pub use kernel::poll;
pub use pci_dev::PciDev;
pub use pci_manager::{is_pcie_device, PCIDevice, PCIDeviceManager};
pub use sysfs::{Sysfs, SYSFS};
