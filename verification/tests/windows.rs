//! Naming and classifying a physical drive on Windows.

use rawio::device::{Access, Backend, Removability};
use rawio::platform::windows::logic::{
    classify, describe_error, parse_device_id, physical_drive_path, BUS_TYPE_MMC, BUS_TYPE_SD,
    BUS_TYPE_USB, ERROR_INVALID_PARAMETER,
};
use rawio::platform::windows::WindowsBackend;
use rawio::trace::Trace;

#[test]
fn device_path_uses_the_physical_drive_namespace() {
    assert_eq!(physical_drive_path(2), r"\\.\PhysicalDrive2");
}

#[test]
fn device_id_accepts_index_name_and_full_path() {
    for id in [
        "2",
        "PhysicalDrive2",
        "physicaldrive2",
        r"\\.\PhysicalDrive2",
    ] {
        assert_eq!(parse_device_id(id).unwrap(), 2, "{id}");
    }
}

#[test]
fn device_id_rejects_a_drive_letter() {
    assert!(parse_device_id("E:").is_err());
}

#[test]
fn sd_and_mmc_buses_count_as_removable() {
    assert_eq!(classify(true, BUS_TYPE_USB), Removability::Removable);
    assert_eq!(classify(false, BUS_TYPE_SD), Removability::Removable);
    assert_eq!(classify(false, BUS_TYPE_MMC), Removability::Removable);
}

#[test]
fn a_fixed_non_card_disk_is_never_writable() {
    assert_eq!(classify(false, 0x03), Removability::Fixed);
    assert!(!classify(false, 0x03).writable());
}

#[test]
fn unaligned_access_maps_to_a_readable_hint() {
    assert!(describe_error(ERROR_INVALID_PARAMETER).contains("unaligned"));
}

#[test]
fn a_drive_answers_to_its_path_name_and_number() {
    for index in [0u32, 7, 31, u32::MAX] {
        let path = physical_drive_path(index);
        assert_eq!(parse_device_id(&path), Ok(index));
        assert_eq!(parse_device_id(&format!("PhysicalDrive{index}")), Ok(index));
        assert_eq!(parse_device_id(&format!("PHYSICALDRIVE{index}")), Ok(index));
        assert_eq!(parse_device_id(&index.to_string()), Ok(index));
    }
    assert!(parse_device_id("PhysicalDrive").is_err());
    assert!(parse_device_id("4294967296").is_err());
}

/// The codes a transfer runs into each get a word of their own.
#[test]
fn unknown_codes_have_no_hint() {
    assert_eq!(describe_error(0), describe_error(123456));
    assert_ne!(describe_error(ERROR_INVALID_PARAMETER), describe_error(0));
}

#[test]
fn the_backend_asks_for_a_windows_host() {
    let mut trace = Trace::new();
    let mut elsewhere = WindowsBackend::new(false);

    let err = elsewhere.enumerate(&mut trace).unwrap_err();
    assert_eq!(err.message, "the Windows backend requires a Windows host");
    let err = elsewhere.open("2", Access::Read, &mut trace).map(|_| ()).unwrap_err();
    assert_eq!(err.message, "the Windows backend requires a Windows host");
    let err = elsewhere.open("E:", Access::Read, &mut trace).map(|_| ()).unwrap_err();
    assert!(err.message.contains("\"E:\""), "{err:?}");
    assert!(elsewhere.rehearse_write("2", &mut trace).is_err());

    let mut here = WindowsBackend::new(true);
    let err = here.open("2", Access::Read, &mut trace).map(|_| ()).unwrap_err();
    assert_eq!(err.message, "not implemented yet");
}
