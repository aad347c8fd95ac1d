//! What an error says and which exit code it maps to.

use rawio::error::{DeviceError, Error, IoError, Stage};

#[test]
fn device_error_display_carries_stage_and_os_code() {
    let err = DeviceError::with_os_error(Stage::LockVolume, "access denied", 5);
    assert_eq!(err.to_string(), "[lock-volume] access denied (os error 5)");
}

/// `io::Error` already renders the code into its own message, so the raw
/// value has to be taken out before `Display` puts it back.
#[test]
fn an_os_error_is_reported_once() {
    let err = DeviceError::from_io(
        Stage::Open,
        &std::io::Error::from_raw_os_error(libc_eacces()),
    );

    assert_eq!(err.os_error, Some(libc_eacces()));
    assert!(!err.message.contains("os error"), "{}", err.message);
    assert_eq!(err.to_string().matches("os error").count(), 1, "{err:?}");
}

fn libc_eacces() -> i32 {
    13
}

#[test]
fn exit_codes_separate_failure_classes() {
    let cases = [
        (Error::InvalidArgument("x".into()), 2u8),
        (Error::Device(DeviceError::new(Stage::Open, "x")), 3),
        (
            Error::NotRemovable {
                device: "d".into(),
                classification: "fixed",
            },
            4,
        ),
        (
            Error::WriteAborted {
                start: 0,
                written: 512,
                source: DeviceError::new(Stage::Write, "x"),
            },
            5,
        ),
        (Error::Unsupported("x"), 6),
        (
            Error::VerifyFailed {
                offset: 4196,
                expected: 0x11,
                found: 0x22,
            },
            7,
        ),
    ];
    for (err, expected) in cases {
        assert_eq!(err.exit_code(), expected, "{err:?}");
    }
}

#[test]
fn every_failure_says_what_went_wrong() {
    let device = || DeviceError::with_os_error(Stage::Write, "gone", -7);
    let cases = [
        (
            Error::Device(DeviceError::new(Stage::Open, "x")),
            "[open-device] x",
        ),
        (
            Error::NotRemovable {
                device: "sda".into(),
                classification: "fixed",
            },
            "refusing to write: sda is not a removable device (fixed)",
        ),
        (Error::InvalidArgument("x".into()), "invalid argument: x"),
        (Error::Pit("x".into()), "PIT: x"),
        (Error::Parts("x".into()), "partition table: x"),
        (
            Error::WriteAborted {
                start: 4096,
                written: 512,
                source: device(),
            },
            "write aborted after 512 bytes written at offset 4096: [write] gone (os error -7)",
        ),
        (
            Error::VerifyFailed {
                offset: 4196,
                expected: 0x01,
                found: 0xfe,
            },
            "verify failed at offset 4196: expected 0x01, found 0xfe",
        ),
        (
            Error::Unsupported("plan9"),
            "not supported on this platform: plan9",
        ),
        (
            Error::io("writing output", IoError::new("disk full", Some(28))),
            "writing output: disk full",
        ),
    ];
    for (err, expected) in cases {
        assert_eq!(err.to_string(), expected);
    }
    assert_eq!(Error::Pit("x".into()).exit_code(), 3);
    assert_eq!(Error::Parts("x".into()).exit_code(), 3);
    assert_eq!(Error::io("x", IoError::new("y", None)).exit_code(), 3);
}

/// Only the code's own copy at the end is taken out, however often it is there.
#[test]
fn an_os_code_is_told_once() {
    let rendered = IoError::new("denied (os error 13) (os error 13)", Some(13));
    let err = DeviceError::from_io_error(Stage::Open, &rendered);
    assert_eq!(err.message, "denied");
    assert_eq!(err.to_string(), "[open-device] denied (os error 13)");

    let other = IoError::new("denied (os error 5)", Some(13));
    let err = DeviceError::from_io_error(Stage::Open, &other);
    assert_eq!(err.message, "denied (os error 5)");

    let plain = IoError::new("denied", None);
    assert_eq!(DeviceError::from_io_error(Stage::Open, &plain).to_string(), "[open-device] denied");
}

/// An error of the standard library keeps its words and its code.
#[test]
fn an_error_is_taken_apart_whole() {
    let raised = std::io::Error::from_raw_os_error(2);
    let taken = IoError::from_std(&raised);
    assert_eq!(taken.os_error, Some(2));
    assert_eq!(taken.text, raised.to_string());

    let made = std::io::Error::from(std::io::ErrorKind::TimedOut);
    assert_eq!(IoError::from_std(&made).os_error, None);
    assert_eq!(IoError::from_std(&made).text, made.to_string());
}
