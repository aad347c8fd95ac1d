//! Backend selection. Only the syscall layer belongs to a host; every backend's
//! pure logic compiles and is tested on all of them.

use vstd::prelude::*;

use crate::device::{Access, Backend, DeviceInfo, DeviceInfoView, RawDevice, VolumeLock};
use crate::device::VolumeLockView;
use crate::error::{DeviceError, DeviceErrorView, Error, ErrorView, Result, Stage};
use crate::trace::{StepView, Trace};

pub mod linux;
pub mod windows;

verus! {

/// The system a build runs on.
#[derive(Debug, Clone, Copy)]
pub enum Host {
    Windows,
    Linux,
    /// Any other, by the name the build knows it under.
    Other(&'static str),
}

/// What is said where the system calls behind a step are not written.
pub open spec fn unwritten(stage: Stage) -> DeviceErrorView {
    DeviceErrorView::plain(stage, "not implemented yet"@)
}

pub(crate) fn not_written(stage: Stage) -> (err: DeviceError)
    ensures
        err@ == unwritten(stage),
{
    DeviceError::new(stage, "not implemented yet")
}

/// A device behind system calls that are not written: it can say what it is,
/// and refuses every access.
#[derive(Debug)]
pub struct SystemDevice {
    pub info: DeviceInfo,
}

impl RawDevice for SystemDevice {
    type State = DeviceInfoView;

    open spec fn state(&self) -> DeviceInfoView {
        self.info@
    }

    open spec fn described(state: DeviceInfoView) -> DeviceInfoView {
        state
    }

    open spec fn read_step(state: DeviceInfoView, offset: u64, buf: Seq<u8>) -> (
        core::result::Result<usize, DeviceErrorView>,
        Seq<u8>,
        DeviceInfoView,
    ) {
        (Err(unwritten(Stage::Read)), buf, state)
    }

    open spec fn write_step(state: DeviceInfoView, offset: u64, bytes: Seq<u8>) -> (
        core::result::Result<usize, DeviceErrorView>,
        DeviceInfoView,
    ) {
        (Err(unwritten(Stage::Write)), state)
    }

    open spec fn flush_step(state: DeviceInfoView) -> (
        core::result::Result<(), DeviceErrorView>,
        DeviceInfoView,
    ) {
        (Err(unwritten(Stage::Flush)), state)
    }

    fn info(&self) -> (info: &DeviceInfo) {
        &self.info
    }

    fn read_at(&mut self, _offset: u64, _buf: &mut [u8]) -> (result: core::result::Result<
        usize,
        DeviceError,
    >) {
        Err(not_written(Stage::Read))
    }

    fn write_at(&mut self, _offset: u64, _buf: &[u8]) -> (result: core::result::Result<
        usize,
        DeviceError,
    >) {
        Err(not_written(Stage::Write))
    }

    fn flush(&mut self) -> (result: core::result::Result<(), DeviceError>) {
        Err(not_written(Stage::Flush))
    }
}

/// The backend of the host.
#[derive(Debug)]
pub enum HostBackend {
    Windows(windows::WindowsBackend),
    Linux(linux::LinuxBackend),
}

/// Hosts outside Windows and Linux still build and run the test suite, they
/// just have no device access.
pub fn backend(host: Host) -> (result: Result<HostBackend>)
    ensures
        match host {
            Host::Windows => result matches Ok(HostBackend::Windows(backend))
                && backend.on_windows,
            Host::Linux => result matches Ok(HostBackend::Linux(_)),
            Host::Other(name) => result matches Err(err) && err@ == ErrorView::Unsupported(name@),
        },
{
    match host {
        Host::Windows => Ok(HostBackend::Windows(windows::WindowsBackend::new(true))),
        Host::Linux => Ok(HostBackend::Linux(linux::LinuxBackend::new())),
        Host::Other(name) => Err(Error::Unsupported(name)),
    }
}

impl Backend for HostBackend {
    type Device = SystemDevice;

    type State = HostBackend;

    open spec fn state(&self) -> HostBackend {
        *self
    }

    open spec fn enumerate_step(state: HostBackend, trace: Seq<StepView>) -> (
        core::result::Result<Seq<DeviceInfoView>, DeviceErrorView>,
        Seq<StepView>,
        HostBackend,
    ) {
        match state {
            HostBackend::Windows(backend) => {
                let (answer, trace, _) = windows::WindowsBackend::enumerate_step(
                    backend.state(),
                    trace,
                );
                (answer, trace, state)
            },
            HostBackend::Linux(backend) => {
                let (answer, trace, _) = linux::LinuxBackend::enumerate_step(
                    backend.state(),
                    trace,
                );
                (answer, trace, state)
            },
        }
    }

    open spec fn open_step(
        state: HostBackend,
        id: Seq<char>,
        access: Access,
        trace: Seq<StepView>,
    ) -> (core::result::Result<DeviceInfoView, DeviceErrorView>, Seq<StepView>, HostBackend) {
        match state {
            HostBackend::Windows(backend) => {
                let (answer, trace, _) = windows::WindowsBackend::open_step(
                    backend.state(),
                    id,
                    access,
                    trace,
                );
                (answer, trace, state)
            },
            HostBackend::Linux(backend) => {
                let (answer, trace, _) = linux::LinuxBackend::open_step(
                    backend.state(),
                    id,
                    access,
                    trace,
                );
                (answer, trace, state)
            },
        }
    }

    open spec fn rehearse_step(state: HostBackend, id: Seq<char>, trace: Seq<StepView>) -> (
        core::result::Result<Seq<VolumeLockView>, DeviceErrorView>,
        Seq<StepView>,
        HostBackend,
    ) {
        match state {
            HostBackend::Windows(backend) => {
                let (answer, trace, _) = windows::WindowsBackend::rehearse_step(
                    backend.state(),
                    id,
                    trace,
                );
                (answer, trace, state)
            },
            HostBackend::Linux(backend) => {
                let (answer, trace, _) = linux::LinuxBackend::rehearse_step(
                    backend.state(),
                    id,
                    trace,
                );
                (answer, trace, state)
            },
        }
    }

    fn enumerate(&mut self, trace: &mut Trace) -> (result: core::result::Result<
        Vec<DeviceInfo>,
        DeviceError,
    >) {
        match self {
            HostBackend::Windows(backend) => backend.enumerate(trace),
            HostBackend::Linux(backend) => backend.enumerate(trace),
        }
    }

    fn open(&mut self, id: &str, access: Access, trace: &mut Trace) -> (result: core::result::Result<
        SystemDevice,
        DeviceError,
    >) {
        match self {
            HostBackend::Windows(backend) => backend.open(id, access, trace),
            HostBackend::Linux(backend) => backend.open(id, access, trace),
        }
    }

    fn rehearse_write(&mut self, id: &str, trace: &mut Trace) -> (result: core::result::Result<
        Vec<VolumeLock>,
        DeviceError,
    >) {
        match self {
            HostBackend::Windows(backend) => backend.rehearse_write(id, trace),
            HostBackend::Linux(backend) => backend.rehearse_write(id, trace),
        }
    }
}

} // verus!
