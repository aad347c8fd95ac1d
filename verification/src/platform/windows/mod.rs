//! Windows backend. `logic` holds everything that is not a syscall so it stays
//! testable from a Linux or macOS development host.

use vstd::prelude::*;

use crate::device::{Access, Backend, DeviceInfo, DeviceInfoView, VolumeLock};
use crate::device::VolumeLockView;
use crate::error::{DeviceError, DeviceErrorView, Stage};
use crate::platform;
use crate::platform::SystemDevice;
use crate::trace::{StepView, Trace};

pub mod logic;
pub mod sys;

verus! {

/// Knows whether it runs on a Windows host, which its system calls need.
#[derive(Debug)]
pub struct WindowsBackend {
    pub on_windows: bool,
}

impl WindowsBackend {
    pub fn new(on_windows: bool) -> (backend: WindowsBackend)
        ensures
            backend.on_windows == on_windows,
    {
        WindowsBackend { on_windows }
    }

    /// What a step that reaches the system calls is answered.
    pub open spec fn refusal(on_windows: bool, stage: Stage) -> DeviceErrorView {
        if on_windows {
            platform::unwritten(stage)
        } else {
            DeviceErrorView::plain(stage, "the Windows backend requires a Windows host"@)
        }
    }
}

impl Backend for WindowsBackend {
    type Device = SystemDevice;

    type State = bool;

    open spec fn state(&self) -> bool {
        self.on_windows
    }

    open spec fn enumerate_step(state: bool, trace: Seq<StepView>) -> (
        Result<Seq<DeviceInfoView>, DeviceErrorView>,
        Seq<StepView>,
        bool,
    ) {
        (Err(WindowsBackend::refusal(state, Stage::Enumerate)), trace, state)
    }

    open spec fn open_step(state: bool, id: Seq<char>, access: Access, trace: Seq<StepView>) -> (
        Result<DeviceInfoView, DeviceErrorView>,
        Seq<StepView>,
        bool,
    ) {
        let answer = match logic::drive_named(id) {
            Ok(_) => Err(WindowsBackend::refusal(state, Stage::Open)),
            Err(message) => Err(DeviceErrorView::plain(Stage::Open, message)),
        };
        (answer, trace, state)
    }

    open spec fn rehearse_step(state: bool, id: Seq<char>, trace: Seq<StepView>) -> (
        Result<Seq<VolumeLockView>, DeviceErrorView>,
        Seq<StepView>,
        bool,
    ) {
        let answer = match logic::drive_named(id) {
            Ok(_) => Err(WindowsBackend::refusal(state, Stage::Open)),
            Err(message) => Err(DeviceErrorView::plain(Stage::Open, message)),
        };
        (answer, trace, state)
    }

    fn enumerate(&mut self, _trace: &mut Trace) -> (result: Result<Vec<DeviceInfo>, DeviceError>) {
        if self.on_windows {
            sys::enumerate()
        } else {
            Err(host_required(Stage::Enumerate))
        }
    }

    fn open(&mut self, id: &str, access: Access, _trace: &mut Trace) -> (result: Result<
        SystemDevice,
        DeviceError,
    >) {
        match logic::parse_device_id(id) {
            Ok(index) => if self.on_windows {
                sys::open(index, access)
            } else {
                Err(host_required(Stage::Open))
            },
            Err(message) => Err(DeviceError::new(Stage::Open, message.as_str())),
        }
    }

    fn rehearse_write(&mut self, id: &str, _trace: &mut Trace) -> (result: Result<
        Vec<VolumeLock>,
        DeviceError,
    >) {
        match logic::parse_device_id(id) {
            Ok(_) => if self.on_windows {
                Err(platform::not_written(Stage::Open))
            } else {
                Err(host_required(Stage::Open))
            },
            Err(message) => Err(DeviceError::new(Stage::Open, message.as_str())),
        }
    }
}

fn host_required(stage: Stage) -> (err: DeviceError)
    ensures
        err@ == DeviceErrorView::plain(stage, "the Windows backend requires a Windows host"@),
{
    DeviceError::new(stage, "the Windows backend requires a Windows host")
}

} // verus!
