//! Win32 calls. They matter only on Windows, and none of them is written yet.

use vstd::prelude::*;

use crate::device::{Access, DeviceInfo, DeviceInfoView};
use crate::device;
use crate::error::{DeviceError, DeviceErrorView, Stage};
use crate::platform;
use crate::platform::SystemDevice;

verus! {

pub fn enumerate() -> (result: Result<Vec<DeviceInfo>, DeviceError>)
    ensures
        device::enumeration(result) == Err::<Seq<DeviceInfoView>, DeviceErrorView>(
            platform::unwritten(Stage::Enumerate),
        ),
{
    Err(platform::not_written(Stage::Enumerate))
}

pub fn open(_index: u32, _access: Access) -> (result: Result<SystemDevice, DeviceError>)
    ensures
        device::opening(result) == Err::<DeviceInfoView, DeviceErrorView>(
            platform::unwritten(Stage::Open),
        ),
{
    Err(platform::not_written(Stage::Open))
}

} // verus!
