//! The shapes in which drives and devices are handed to the desktop front
//! end.
use vstd::prelude::*;
use crate::android::adb::AdbDevice;
use crate::disk::DriveInfo;

verus! {

/// A drive as the front end receives it.
#[derive(Clone, Debug)]
pub struct DriveInfoDto {
    pub path: String,
    pub label: String,
    pub size: u64,
    pub filesystem: String,
    pub removable: bool,
}

impl From<DriveInfo> for DriveInfoDto {
    fn from(d: DriveInfo) -> (r: Self) {
        DriveInfoDto { path: d.path, label: d.label, size: d.size, filesystem: d.filesystem, removable: d.removable }
    }
}

impl vstd::std_specs::convert::FromSpecImpl<DriveInfo> for DriveInfoDto {
    open spec fn obeys_from_spec() -> bool {
        true
    }

    open spec fn from_spec(d: DriveInfo) -> Self {
        DriveInfoDto { path: d.path, label: d.label, size: d.size, filesystem: d.filesystem, removable: d.removable }
    }
}

/// An Android device as the front end receives it.
#[derive(Clone, Debug)]
pub struct AdbDeviceDto {
    pub serial: String,
    pub model: String,
    pub state: String,
}

impl From<AdbDevice> for AdbDeviceDto {
    fn from(d: AdbDevice) -> (r: Self) {
        AdbDeviceDto { serial: d.serial, model: d.model, state: d.state }
    }
}

impl vstd::std_specs::convert::FromSpecImpl<AdbDevice> for AdbDeviceDto {
    open spec fn obeys_from_spec() -> bool {
        true
    }

    open spec fn from_spec(d: AdbDevice) -> Self {
        AdbDeviceDto { serial: d.serial, model: d.model, state: d.state }
    }
}

} // verus!
