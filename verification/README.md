# pcilibs-rs

PCI device enumeration, driver binding and confidential computing control for
Linux container runtimes, verified with Verus.

- PCI functions and their identity from sysfs (`PCIDeviceManager`), PCIe
  detection from the size of config space
- vfio drivers: binding, unbinding, and which driver a device wants
- IOMMUFD character devices
- InfiniBand / uverbs diagnostic snapshots
- BAR0 register access, and the power and decoding state around it (`PciDev`)
- NVIDIA CC and Protected PCIe modes, over the FSP's EMEM and MNOC mailboxes

## How it is built

Nothing in the library touches a file, a register or the clock. What takes more
than computing is a `kernel::Procedure`: it names one operation at a time
(`kernel::Op`) and is resumed with what came of it (`kernel::Reply`). Each has a
mathematical state and a function from state and reply to what follows; the
contracts say that the code does just that.

| Where | What |
|-------|------|
| `src/kernel.rs`, `src/inquiry.rs` | operations and replies; questions that change nothing |
| `src/text.rs`, `number.rs`, `path.rs`, `sort.rs`, `listing.rs` | text, numbers, paths, order |
| `src/bdf.rs`, `sysfs.rs`, `attr.rs`, `driver.rs` | addresses, sysfs paths, attributes, driver types |
| `src/pci_dev.rs`, `pci_manager.rs`, `pci_ids.rs` | opening and enumerating functions |
| `src/vfio.rs`, `iommufd.rs`, `infiniband.rs` | drivers and character devices |
| `src/cc/` | chips and switches, modes, FSP framing, register programs, and what they come to on a model of the firmware |
| `app/` | the running kernel: carries the operations out |
| `tests/` | the library against trees and firmware in memory |

## What is trusted

- `String::push`, and `format!` with `{:?}` (the text of a quoted string is
  named, not spelled out)
- the names in the `pci-ids` database
- `nix`: the file type bits of a mode, and the major and minor number of a
  device number

## License

Apache-2.0
