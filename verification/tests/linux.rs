//! Naming and classifying a block device on Linux.

use rawio::device::{Access, Backend, Removability};
use rawio::error::Stage;
use rawio::platform::linux::{classify, device_name, sysfs_removable_path, LinuxBackend};
use rawio::platform::{backend, Host, HostBackend};
use rawio::trace::Trace;

#[test]
fn device_name_accepts_bare_and_dev_paths() {
    assert_eq!(device_name("sdb").unwrap(), "sdb");
    assert_eq!(device_name("/dev/mmcblk0").unwrap(), "mmcblk0");
}

#[test]
fn partitions_are_rejected() {
    assert!(device_name("/dev/sdb1").is_err());
    assert!(device_name("mmcblk0p1").is_err());
}

#[test]
fn sysfs_attribute_drives_the_removable_verdict() {
    assert_eq!(classify(Some("1\n")), Removability::Removable);
    assert_eq!(classify(Some("0\n")), Removability::Fixed);
    assert_eq!(classify(None), Removability::Unknown);
    assert!(!classify(None).writable());
}

#[test]
fn sysfs_path_is_built_from_the_device_name() {
    assert_eq!(sysfs_removable_path("sdb"), "/sys/block/sdb/removable");
}

/// Only a plain `1` makes a device writable; anything the kernel might say
/// instead does not.
#[test]
fn only_a_one_makes_a_device_writable() {
    for attribute in ["0", "", "2", "11", "yes"] {
        assert!(!classify(Some(attribute)).writable(), "{attribute}");
    }
    assert!(classify(Some(" 1 ")).writable());
}

#[test]
fn the_directory_does_not_change_the_name() {
    for name in ["sdb", "mmcblk0", "nvme0n1"] {
        assert_eq!(device_name(name), device_name(&format!("/dev/{name}")));
    }
    assert_eq!(device_name("").unwrap_err(), "\"\" is not a block device name");
    assert_eq!(device_name("/dev/a/b").unwrap_err(), "\"/dev/a/b\" is not a block device name");
    assert_eq!(
        device_name("sdb1").unwrap_err(),
        "\"sdb1\" is a partition; pass the whole device"
    );
}

/// A partition is refused however its disk spells it; a disk whose own name
/// ends in a digit is not one.
#[test]
fn a_partition_is_never_a_device() {
    for name in ["nvme0n1p1", "/dev/nvme0n1p1", "mmcblk0p2", "loop0p1", "sda15", "hda1", "vda2"] {
        let refused = device_name(name).unwrap_err();
        assert!(refused.contains("is a partition"), "{name}: {refused}");
    }
    for name in ["nvme0n1", "mmcblk0", "loop0", "sda", "vda", "sr0", "zram1"] {
        assert_eq!(device_name(name).unwrap(), name);
    }
}

/// The system calls are not there yet, and every way in says so.
#[test]
fn the_backend_names_the_step_that_is_missing() {
    let mut trace = Trace::new();
    let mut backend = LinuxBackend::new();

    let listed = backend.enumerate(&mut trace).unwrap_err();
    assert_eq!(listed.stage, Stage::Enumerate);
    let opened = backend.open("sdb", Access::Read, &mut trace).map(|_| ()).unwrap_err();
    assert_eq!(opened.to_string(), "[open-device] not implemented yet");
    let partition = backend.open("sdb1", Access::Read, &mut trace).map(|_| ()).unwrap_err();
    assert!(partition.message.contains("partition"), "{partition:?}");
    assert!(backend.rehearse_write("sdb", &mut trace).unwrap().is_empty());
}

#[test]
fn a_host_has_the_backend_of_its_system() {
    assert!(matches!(backend(Host::Linux), Ok(HostBackend::Linux(_))));
    assert!(matches!(backend(Host::Windows), Ok(HostBackend::Windows(_))));
    let err = backend(Host::Other("macos")).map(|_| ()).unwrap_err();
    assert_eq!(err.exit_code(), 6);
    assert_eq!(err.to_string(), "not supported on this platform: macos");
}
