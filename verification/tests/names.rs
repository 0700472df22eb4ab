use pcilibs_rs::attr::{attr_hex, parse_attr};
use pcilibs_rs::bdf::{address_to_id, Address};
use pcilibs_rs::infiniband::device_kind;
use pcilibs_rs::iommufd::{is_passthrough_capable_class, IommufdDev};
use pcilibs_rs::kernel::{
    context, failed, poll, Entry, ErrorKind, IoError, PollEvent, PollStep, POLL_PAUSE_MS,
};
use pcilibs_rs::listing::{
    every_name, first_error, names_before_error, readable_entries, readable_names,
};
use pcilibs_rs::number::{
    parse_signed, parse_unsigned, push_decimal, push_hex, push_hex_upper, NumberFault,
};
use pcilibs_rs::path::{file_name, is_component, join};
use pcilibs_rs::pci_dev::{dword_at, set_memory_decoding, BadOffset, PCI_COMMAND_MEMORY};
use pcilibs_rs::pci_ids::known_or;
use pcilibs_rs::sort::sort_texts;
use pcilibs_rs::text::{
    contains, find_last_word, join_all, remove_all, replace, split, strip_prefix, text, trim,
};
use pcilibs_rs::{
    is_vfio_device_type, normalize_bdf, Sysfs, DRIVER_VFIO_AP_COLD_TYPE, DRIVER_VFIO_AP_TYPE,
    DRIVER_VFIO_PCI_GK_TYPE, DRIVER_VFIO_PCI_TYPE, PCI_DEV_DOMAIN, SYSFS,
};

fn chars(s: &str) -> Vec<char> {
    s.chars().collect()
}

// --- Addresses ---------------------------------------------------------------

#[test]
fn normalize_bdf_canonicalises_an_address() {
    for (input, expected) in [
        ("0000:65:00.0", "0000:65:00.0"),
        ("65:00.0", "0000:65:00.0"),
        ("0009:01:00.0", "0009:01:00.0"),
        ("0009:01:00.0", "0009:01:00.0"),
        ("9:1:0.0", "0009:01:00.0"),
        ("FF:1F.0", "0000:ff:1f.0"),
        ("ffff:ff:ff.ff", "ffff:ff:ff.ff"),
    ] {
        assert_eq!(normalize_bdf(input).unwrap(), expected);
    }
}

#[test]
fn normalize_bdf_refuses_what_is_not_an_address() {
    for input in [
        "../../../etc/shadow",
        "0000:../:00.0",
        "/etc/shadow",
        "0000:65:00.0/../..",
        "65",
        "0000:0000:65:00.0",
        "0000:65:00",
        "zzzz:65:00.0",
        "",
        "10000:65:00.0",
        "0000:100:00.0",
        "0000:65:00.",
        "0000:65:.0",
    ] {
        assert!(normalize_bdf(input).is_none(), "{input:?} was accepted");
    }
}

#[test]
fn an_address_reads_back_from_its_own_spelling() {
    let address = Address {
        domain: 0x9,
        bus: 0x1,
        device: 0x1f,
        function: 7,
    };

    assert_eq!(address.spell(), "0009:01:1f.7");
    assert_eq!(Address::parse(&address.spell()), Some(address));
}

#[test]
fn addresses_come_to_numbers_in_bus_order() {
    assert_eq!(address_to_id("0000:03:00.1"), 0x3001);
    assert_eq!(address_to_id("0001:00:00.0"), 0x10_0000);
    assert!(address_to_id("0000:ff:1f.7") < address_to_id("0001:00:00.0"));
    assert_eq!(address_to_id("nonsense"), 0);
}

#[test]
fn the_omitted_domain_is_the_first() {
    assert_eq!(PCI_DEV_DOMAIN, "0000");
    assert_eq!(normalize_bdf("65:00.0"), normalize_bdf("0000:65:00.0"));
}

// --- Sysfs paths -------------------------------------------------------------

#[test]
fn defaults_to_the_running_kernel() {
    assert_eq!(Sysfs::default().devices(), "/sys/bus/pci/devices");
}

#[test]
fn derives_every_path_from_the_root_it_was_given() {
    let sysfs = Sysfs::new("/tmp/fake");

    assert_eq!(sysfs.devices(), "/tmp/fake/bus/pci/devices");
    assert_eq!(SYSFS, "/sys");
    assert_eq!(sysfs.drivers_probe(), "/tmp/fake/bus/pci/drivers_probe");
    assert_eq!(sysfs.iommu_groups(), "/tmp/fake/kernel/iommu_groups");
    assert_eq!(sysfs.vfio_dev("vfio5"), "/tmp/fake/class/vfio-dev/vfio5");
    assert_eq!(sysfs.infiniband(), "/tmp/fake/class/infiniband");
    assert_eq!(sysfs.infiniband_verbs(), "/tmp/fake/class/infiniband_verbs");
}

#[test]
fn spells_an_address_the_way_sysfs_does() {
    for address in ["0000:65:00.0", "65:00.0", "0000:6F:00.0", "0:6:0.0"] {
        let path = Sysfs::default().device(address).expect("a PCI address");

        let name = path.strip_prefix("/sys/bus/pci/devices/").unwrap();
        assert_eq!(name.len(), "0000:00:00.0".len(), "{path:?}");
    }
}

#[test]
fn a_device_path_takes_no_address_that_is_not_one() {
    for address in [
        "../../../etc",
        "/etc/shadow",
        "0000:65:00.0/..",
        "zzzz:65:00.0",
        "",
    ] {
        assert!(Sysfs::default().device(address).is_none());
    }
}

#[test]
fn takes_a_driver_name_and_not_a_path() {
    for (name, accepted) in [
        ("vfio-pci", true),
        ("../../../etc", false),
        ("/etc", false),
        ("vfio-pci/..", false),
        ("", false),
    ] {
        let path = Sysfs::new("/tmp/fake").driver(name);

        assert_eq!(path.is_some(), accepted, "{name:?}");
        if let Some(path) = path {
            assert_eq!(path, format!("/tmp/fake/bus/pci/drivers/{name}"));
        }
    }
}

#[test]
fn takes_a_module_name_and_not_a_path() {
    for (name, accepted) in [
        ("nvgrace_gpu_vfio_pci", true),
        ("nvgrace-gpu-vfio-pci", true),
        ("../../target", false),
        ("/etc", false),
        ("vfio_pci/../..", false),
        ("..", false),
        (".", false),
        ("", false),
    ] {
        let path = Sysfs::new("/tmp/fake").module(name);

        assert_eq!(path.is_some(), accepted, "{name:?}");
        if let Some(path) = path {
            assert_eq!(path, "/tmp/fake/module/nvgrace_gpu_vfio_pci");
        }
    }
}

#[test]
fn paths_join_and_end_the_way_unix_has_it() {
    assert_eq!(join("/sys", "class"), "/sys/class");
    assert_eq!(join("/sys/", "class"), "/sys/class");
    assert_eq!(join("/sys", "/etc"), "/etc");
    assert_eq!(join("", "class"), "class");
    assert_eq!(file_name("/sys/bus/pci/drivers/vfio-pci").unwrap(), "vfio-pci");
    assert_eq!(file_name("../../drivers/nvidia/").unwrap(), "nvidia");
    assert_eq!(file_name("drivers/nvidia/.").unwrap(), "nvidia");
    assert!(file_name("drivers/..").is_none());
    assert!(file_name("/").is_none());
    assert!(file_name("").is_none());
    assert!(is_component("vfio-pci"));
    assert!(!is_component("a/b"));
    assert!(!is_component(".."));
}

// --- Drivers and classes -----------------------------------------------------

#[test]
fn test_is_vfio_device_type() {
    assert!(is_vfio_device_type(DRIVER_VFIO_PCI_TYPE));
    assert!(is_vfio_device_type(DRIVER_VFIO_PCI_GK_TYPE));
    assert!(is_vfio_device_type(DRIVER_VFIO_AP_TYPE));
    assert!(is_vfio_device_type(DRIVER_VFIO_AP_COLD_TYPE));
    assert!(!is_vfio_device_type("virtio-pci"));
}

#[test]
fn passthrough_capable_gpu_and_nvswitch() {
    assert!(is_passthrough_capable_class(0x030200)); // 3D controller (GPU)
    assert!(is_passthrough_capable_class(0x030000)); // VGA
    assert!(is_passthrough_capable_class(0x020000)); // Network controller
    assert!(is_passthrough_capable_class(0x068000)); // NVSwitch (Other Bridge)
}

#[test]
fn passthrough_not_capable_bridges_and_audio() {
    assert!(!is_passthrough_capable_class(0x060000)); // Host Bridge
    assert!(!is_passthrough_capable_class(0x060400)); // PCI-to-PCI Bridge
    assert!(!is_passthrough_capable_class(0x040300)); // Audio device

    // prog-if byte in class should not affect the result
    assert!(!is_passthrough_capable_class(0x060001)); // Host Bridge, non-zero prog-if
}

#[test]
fn a_device_node_is_named_by_its_type() {
    for (kind, expected) in [
        (0o020000, "char"),
        (0o060000, "block"),
        (0o100000, "other"),
        (0o040000, "other"),
        (0o010000, "other"),
    ] {
        assert_eq!(device_kind(kind | 0o600), expected);
    }
}

#[test]
fn a_class_code_beyond_24_bits_keeps_its_low_half() {
    let dev = IommufdDev {
        num: 0,
        path: String::new(),
        vendor: 0x10de,
        device: 0x2330,
        class: 0xff03_0200,
    };

    assert_eq!(dev.class_prefix(), 0x0302);
    assert_eq!(dev.clone().class, dev.class);
}

#[test]
fn an_unknown_name_has_a_stand_in() {
    assert_eq!(known_or(Some("GH100"), "UNKNOWN_DEVICE"), "GH100");
    assert_eq!(known_or(None, "UNKNOWN_DEVICE"), "UNKNOWN_DEVICE");
}

// --- Registers ---------------------------------------------------------------

#[test]
fn a_register_is_a_dword_inside_bar0() {
    assert_eq!(dword_at(4096, 0xffc), Ok(0xffc));
    assert_eq!(dword_at(4096, 0x201), Err(BadOffset::Misaligned));
    assert_eq!(dword_at(4096, 0x202), Err(BadOffset::Misaligned));
    assert_eq!(dword_at(4096, 0x1000), Err(BadOffset::PastEnd));
    assert_eq!(dword_at(2, 0), Err(BadOffset::PastEnd));
}

#[test]
fn memory_decoding_is_one_bit_of_command() {
    let command = 0b0000_0100_0000_0101;

    let on = set_memory_decoding(command, true);
    assert_eq!(on, command | PCI_COMMAND_MEMORY);
    assert_eq!(set_memory_decoding(on, true), on);
    assert_eq!(set_memory_decoding(on, false), command);
}

#[test]
fn a_wait_looks_once_even_past_its_deadline() {
    assert_eq!(poll(PollEvent::Started, 0), PollStep::Look);
    assert_eq!(poll(PollEvent::Looked(true), 0), PollStep::Ready);
    assert_eq!(poll(PollEvent::Looked(false), 0), PollStep::AskTime);
    assert_eq!(poll(PollEvent::Elapsed(1), 0), PollStep::TimedOut);
    assert_eq!(poll(PollEvent::Elapsed(5), 5), PollStep::Sleep);
    assert_eq!(poll(PollEvent::Slept, 5), PollStep::Look);
    assert_eq!(POLL_PAUSE_MS, 1);
}

// --- Attributes --------------------------------------------------------------

fn not_found() -> IoError {
    failed(ErrorKind::NotFound, "no such file".to_string())
}

#[test]
fn an_attribute_reads_as_hex() {
    assert_eq!(
        attr_hex("/dev", "vendor", Ok("0x10de\n".to_string())).unwrap(),
        0x10de
    );
    assert_eq!(parse_attr("  0x0x2330 ", 0xffff), Ok(0x2330));
    assert_eq!(parse_attr("10000", 0xffff), Err(NumberFault::Overflow));
    assert_eq!(parse_attr("", 0xffff), Err(NumberFault::Empty));
}

#[test]
fn an_attribute_that_does_not_read_as_hex_is_refused() {
    let err = attr_hex("/d", "vendor", Ok("nonsense\n".to_string())).unwrap_err();

    assert_eq!(err.kind, ErrorKind::InvalidData);
    assert_eq!(
        err.message,
        "parse /d/vendor: invalid digit found in string"
    );
}

#[test]
fn an_attribute_that_does_not_read_keeps_its_kind() {
    let err = attr_hex("/d", "vendor", Err(not_found())).unwrap_err();

    assert_eq!(err.kind, ErrorKind::NotFound);
    assert_eq!(err.message, "read /d/vendor: no such file");
}

#[test]
fn context_keeps_the_kind_and_says_what_was_attempted() {
    let err = context(not_found(), "open it");

    assert_eq!(err.kind, ErrorKind::NotFound);
    assert_eq!(err.message, "open it: no such file");
}

/// Any kind, also one that has no name of its own.
#[test]
fn a_failure_of_any_kind_keeps_it() {
    for kind in [
        ErrorKind::WouldBlock,
        ErrorKind::StorageFull,
        ErrorKind::FilesystemLoop,
        ErrorKind::Uncategorized,
    ] {
        let err = failed(kind, "no luck".to_string());
        assert_eq!(attr_hex("/d", "vendor", Err(err)).unwrap_err().kind, kind);
    }
}

// --- Numbers and text --------------------------------------------------------

#[test]
fn numbers_parse_the_way_integers_do() {
    assert_eq!(parse_unsigned(&chars("+ff"), 16, 0xff), Ok(0xff));
    assert_eq!(
        parse_unsigned(&chars("+"), 16, 0xff),
        Err(NumberFault::InvalidDigit)
    );
    assert_eq!(
        parse_unsigned(&chars("-1"), 10, 0xff),
        Err(NumberFault::InvalidDigit)
    );
    assert_eq!(
        parse_unsigned(&chars("100"), 16, 0xff),
        Err(NumberFault::Overflow)
    );
    assert_eq!(parse_signed(&chars("-1")), Some(-1));
    assert_eq!(parse_signed(&chars("-9223372036854775808")), Some(i64::MIN));
    assert_eq!(parse_signed(&chars("9223372036854775808")), None);
    assert_eq!(parse_signed(&chars("-")), None);
    assert_eq!(parse_signed(&chars("")), None);
}

#[test]
fn number_faults_say_what_rust_says() {
    for (input, fault) in [
        ("", NumberFault::Empty),
        ("zz", NumberFault::InvalidDigit),
        ("1ff", NumberFault::Overflow),
    ] {
        assert_eq!(parse_unsigned(&chars(input), 16, 0xff), Err(fault));
        assert_eq!(
            fault.message(),
            u8::from_str_radix(input, 16).unwrap_err().to_string()
        );
    }
}

#[test]
fn numbers_print_the_way_formatting_does() {
    let mut out = String::new();
    push_hex(&mut out, 0x1e3, 1);
    out.push(' ');
    push_hex(&mut out, 0x65, 4);
    out.push(' ');
    push_hex_upper(&mut out, 0x10de, 8);
    out.push(' ');
    push_decimal(&mut out, u64::MAX);

    assert_eq!(
        out,
        format!("{:x} {:04x} {:08X} {}", 0x1e3, 0x65, 0x10de, u64::MAX)
    );
}

#[test]
fn text_is_taken_apart_the_way_str_does() {
    let padded = " \u{2003}vfio\t ";
    assert_eq!(text(trim(&chars(padded))), padded.trim());
    let fields: Vec<String> = split(&chars("a::b"), ':').iter().map(|f| text(f)).collect();
    assert_eq!(fields, "a::b".split(':').collect::<Vec<_>>());
    assert_eq!(text(find_last_word(&chars("alias x  vfio_pci \r"))), "vfio_pci");
    assert!(contains(&chars("abc"), &chars("bc")));
    assert!(!contains(&chars("abc"), &chars("cb")));
    assert_eq!(
        strip_prefix(&chars("pci:x"), "pci:").map(text),
        Some("x".to_string())
    );
    assert_eq!(strip_prefix(&chars("pc"), "pci:"), None);
    assert_eq!(text(&replace(&chars("a-b-c"), '-', '_')), "a_b_c");
    assert_eq!(text(&remove_all(&chars("0000:03:00.1"), ':')), "00000300.1");
    let parts = vec!["a".to_string(), "b".to_string()];
    assert_eq!(join_all(&parts, ", "), "a, b");
}

#[test]
fn texts_sort_the_way_strings_do() {
    let unsorted = ["b", "", "ab", "a", "b"];
    let mut expected: Vec<String> = unsorted.iter().map(|s| s.to_string()).collect();
    expected.sort();

    let sorted = sort_texts(unsorted.iter().map(|s| s.to_string()).collect());

    assert_eq!(sorted, expected);
}

fn entry(name: &str) -> Entry {
    Entry {
        name: name.to_string(),
        raw: name.as_bytes().to_vec(),
    }
}

#[test]
fn a_listing_can_be_read_strictly_or_leniently() {
    let entries = vec![Ok(entry("a")), Err(not_found()), Ok(entry("b"))];

    assert_eq!(readable_names(&entries), ["a", "b"]);
    assert_eq!(names_before_error(&entries), ["a"]);
    let found = readable_entries(&entries);
    assert_eq!(found.len(), 2);
    assert_eq!((found[1].name.as_str(), found[1].raw.as_slice()), ("b", &b"b"[..]));
    assert_eq!(first_error(&entries).unwrap().kind, ErrorKind::NotFound);
    assert_eq!(every_name(&entries).unwrap_err().kind, ErrorKind::NotFound);
    assert_eq!(every_name(&vec![Ok(entry("a"))]).unwrap(), ["a"]);
}

/// Sorted as texts or by their numbers, addresses come in bus order.
#[test]
fn addresses_sort_in_bus_order_either_way() {
    let in_order = [
        "0000:00:1f.7",
        "0000:03:00.0",
        "0000:03:00.1",
        "0000:0a:00.0",
        "0000:ff:1f.0",
        "0001:00:00.0",
        "00a0:00:00.0",
    ];
    let reversed: Vec<String> = in_order.iter().rev().map(|a| a.to_string()).collect();

    assert_eq!(sort_texts(reversed), in_order);
    for pair in in_order.windows(2) {
        assert!(address_to_id(pair[0]) < address_to_id(pair[1]), "{pair:?}");
    }
}

/// A function that takes two digits shifts the ones before it.
#[test]
fn a_two_digit_function_has_no_place_of_its_own() {
    assert_eq!(normalize_bdf("0:0:0.10").unwrap(), "0000:00:00.10");
    assert_eq!(address_to_id("0000:00:00.10"), 0x10);
    assert_eq!(address_to_id("0000:00:01.0"), 0x10);
}
