//! The record of device accesses.

use rawio::error::{DeviceError, Stage};
use rawio::trace::Trace;

#[test]
fn failed_step_reports_stage_and_os_error() {
    let mut trace = Trace::new();
    trace.ok(Stage::Open, "\\\\.\\PhysicalDrive2", "handle acquired");
    trace.failed(
        "FSCTL_LOCK_VOLUME",
        &DeviceError::with_os_error(Stage::LockVolume, "access denied", 5),
    );

    let rendered = trace.render();
    assert!(rendered.contains("open-device"));
    assert!(rendered.contains("lock-volume"));
    assert!(rendered.contains("FAILED access denied (os error 5)"));
}

#[test]
fn the_record_is_rendered_step_by_step() {
    let mut trace = Trace::new();
    assert!(trace.is_empty());
    assert_eq!(trace.render(), "");

    trace.ok(Stage::Read, "read 512B at 0", "ok");
    trace.failed("flush after 512B", &DeviceError::new(Stage::Flush, "gone"));

    assert!(!trace.is_empty());
    let rendered = trace.render();
    let lines: Vec<&str> = rendered.lines().collect();
    assert_eq!(lines.len(), 2, "{rendered}");
    assert!(lines[0].contains("read 512B at 0"), "{rendered}");
    assert!(lines[1].contains("FAILED gone"), "{rendered}");
}
