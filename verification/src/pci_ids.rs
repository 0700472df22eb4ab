//! Names out of the PCI ID database.

use vstd::prelude::*;

verus! {

/// What the database calls a device; none where it does not know the pair.
pub uninterp spec fn pci_device_name(vendor: u16, device: u16) -> Option<Seq<char>>;

/// What the database calls a base class; none where it does not know it.
pub uninterp spec fn pci_class_name(class: u8) -> Option<Seq<char>>;

/// `pci_ids::Device::from_vid_pid`, and `name` of what it finds: a look into
/// a table that is compiled in. Nothing is stated of the names in it but that
/// they depend on the two ids alone.
#[verifier::external_body]
pub(crate) fn find_device(vendor: u16, device: u16) -> (r: Option<&'static str>)
    ensures
        match r {
            Some(name) => pci_device_name(vendor, device) == Some(name@),
            None => pci_device_name(vendor, device) is None,
        },
{
    pci_ids::Device::from_vid_pid(vendor, device).map(|device| device.name())
}

/// `pci_ids::Class::from_id`, and `name` of what it finds: a look into a table
/// that is compiled in. Nothing is stated of the names in it but that they
/// depend on the class alone.
#[verifier::external_body]
pub(crate) fn find_class(class: u8) -> (r: Option<&'static str>)
    ensures
        match r {
            Some(name) => pci_class_name(class) == Some(name@),
            None => pci_class_name(class) is None,
        },
{
    <pci_ids::Class as pci_ids::FromId<u8>>::from_id(class).map(|class| class.name())
}

pub const UNKNOWN_DEVICE: &'static str = "UNKNOWN_DEVICE";

pub const UNKNOWN_CLASS: &'static str = "UNKNOWN_CLASS";

/// A name, or what stands in for one that is not known.
pub open spec fn name_or(name: Option<Seq<char>>, otherwise: Seq<char>) -> Seq<char> {
    match name {
        Some(name) => name,
        None => otherwise,
    }
}

/// A name, or what stands in for one that is not known.
pub fn known_or(name: Option<&'static str>, otherwise: &'static str) -> (r: String)
    ensures
        r@ == name_or(
            match name {
                Some(name) => Some(name@),
                None => None,
            },
            otherwise@,
        ),
{
    match name {
        Some(name) => name.to_string(),
        None => otherwise.to_string(),
    }
}

} // verus!
