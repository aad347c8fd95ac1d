//! Paths past the length Windows takes unmarked.

use rawio::longpath::{extend, for_open, MAX_PATH};

fn long_drive_path(len: usize) -> String {
    let mut path = String::from("C:\\images");
    while path.len() + 1 + 8 <= len {
        path.push_str("\\nested00");
    }
    while path.len() < len {
        path.push('x');
    }
    path
}

#[test]
fn short_paths_are_left_alone() {
    assert_eq!(extend("C:\\images\\boot.bin"), None);
    assert_eq!(
        extend("\\\\wsl.localhost\\Ubuntu\\home\\me\\boot.bin"),
        None
    );
}

#[test]
fn a_path_one_short_of_the_limit_is_still_usable() {
    let path = long_drive_path(MAX_PATH - 1);
    assert_eq!(path.len(), 259);
    assert_eq!(extend(&path), None);
}

#[test]
fn a_drive_path_at_the_limit_gets_the_extended_prefix() {
    let path = long_drive_path(MAX_PATH);
    assert_eq!(extend(&path), Some(format!("\\\\?\\{path}")));
}

#[test]
fn a_unc_path_gets_the_extended_unc_prefix() {
    let tail = "a".repeat(MAX_PATH);
    let path = format!("\\\\wsl.localhost\\Ubuntu\\{tail}");
    assert_eq!(
        extend(&path),
        Some(format!("\\\\?\\UNC\\wsl.localhost\\Ubuntu\\{tail}"))
    );
}

#[test]
fn an_already_extended_path_is_left_alone() {
    let path = format!("\\\\?\\C:\\{}", "a".repeat(MAX_PATH));
    assert_eq!(extend(&path), None);
    let unc = format!("\\\\?\\UNC\\server\\share\\{}", "a".repeat(MAX_PATH));
    assert_eq!(extend(&unc), None);
}

#[test]
fn the_device_namespace_is_left_alone() {
    let path = format!("\\\\.\\PhysicalDrive2\\{}", "a".repeat(MAX_PATH));
    assert_eq!(extend(&path), None);
}

/// Windows counts UTF-16 units, not characters.
#[test]
fn the_limit_counts_utf16_units() {
    let path = format!("C:\\{}", "\u{1F600}".repeat(130));
    assert_eq!(path.chars().count(), 133);
    assert_eq!(path.encode_utf16().count(), 263);
    assert!(extend(&path).is_some());
}

/// A host that does not limit a path opens it as it was typed, and so does one
/// that does when the path is short enough.
#[test]
fn other_paths_are_opened_as_typed() {
    let long = long_drive_path(MAX_PATH);
    assert_eq!(for_open("boot.bin", None), "boot.bin");
    assert_eq!(for_open("boot.bin", Some("C:\\images\\boot.bin")), "boot.bin");
    assert_eq!(for_open("boot.bin", Some(&long)), format!("\\\\?\\{long}"));
}

/// Rewriting twice is rewriting once.
#[test]
fn an_extended_path_needs_no_more() {
    let extended = extend(&long_drive_path(MAX_PATH)).unwrap();
    assert_eq!(extend(&extended), None);
}
