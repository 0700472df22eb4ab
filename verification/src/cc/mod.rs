//! In-band NVIDIA confidential computing control: per-GPU CC, and
//! Protected PCIe across a whole HGX baseboard.
//!
//! Query the current mode, set a new one through FSP PRC knobs, and reset the
//! device so it takes effect.  All of it is done with sysfs (identity, reset)
//! and a BAR0 mapping (registers); no driver is involved.  The device must be
//! idle: not held by nvidia/vfio while in use.
//!
//! [`discover`] lists CC-capable GPUs without opening them (no root, no
//! device wake-up); [`Gpu::open`] maps BAR0 and needs root.
//!
//! The register access itself is not NVIDIA-specific and lives in
//! [`crate::pci_dev`].

pub mod chip;
pub mod discover;
pub mod error;
pub mod firmware;
pub mod fsp;
pub mod gpu;
pub mod job;
pub mod mailbox;
pub mod mode;
pub mod open;
pub mod outcome;
pub mod provision;
pub mod rpc;
pub mod run;
pub mod script;
pub mod switch;

pub use chip::{chip_for, chips, is_c2c, switch_for, switches, Chip, Switch, C2C_DEVIDS};
pub use discover::{discover, discover_switches};
pub use error::{CcError, DeviceFault};
pub use gpu::Gpu;
pub use mode::{CcMode, PpcieMode};
pub use switch::NvSwitch;
