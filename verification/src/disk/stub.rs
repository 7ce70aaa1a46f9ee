//! The disk backend for platforms without raw disk access.
use vstd::prelude::*;
use super::{DiskError, DiskReader, DriveInfo};

verus! {

/// Opening a drive always fails here, saying that raw disk access is not
/// implemented on this platform.
pub fn open_drive(_path: &str) -> (r: Result<Box<dyn DiskReader>, DiskError>)
    ensures
        r matches Err(e) && e.message@ == "Raw disk access is not implemented on this platform."@,
{
    Err(DiskError { message: String::from_str("Raw disk access is not implemented on this platform.") })
}

/// No drive is listed here.
pub fn list_drives() -> (r: Result<Vec<DriveInfo>, DiskError>)
    ensures
        r matches Ok(v) && v@.len() == 0,
{
    Ok(Vec::new())
}

} // verus!
