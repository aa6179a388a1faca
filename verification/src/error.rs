//! The error types the boot and I/O paths surface.

use vstd::prelude::*;

verus! {

use crate::virtio::DeviceError;

/// Boot-time failures.
#[derive(PartialEq, Eq, Structural, Clone, Copy, Debug)]
pub enum OsError {
    DtbError,
}

/// What the filesystem path reports: a device failure carried upward, or
/// a name that resolves to nothing.
#[derive(PartialEq, Eq, Structural, Clone, Copy, Debug)]
pub enum IoError {
    DeviceError(DeviceError),
    FileNotExists,
}

pub type IoResult<T> = Result<T, IoError>;

impl From<DeviceError> for IoError {
    fn from(value: DeviceError) -> (r: IoError) {
        IoError::DeviceError(value)
    }
}

impl vstd::std_specs::convert::FromSpecImpl<DeviceError> for IoError {
    open spec fn obeys_from_spec() -> bool {
        true
    }

    open spec fn from_spec(value: DeviceError) -> IoError {
        IoError::DeviceError(value)
    }
}

} // verus!
