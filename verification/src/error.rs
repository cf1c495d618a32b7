//! What can go wrong in the library itself.

use vstd::prelude::*;

verus! {

/// The errors that the library decides on. Failures of the host's HID system are not among them:
/// those belong to whoever talks to it.
#[derive(Debug, Clone, Copy, PartialEq, Eq, Structural)]
pub enum MirajazzError {
    /// A watcher can watch only once.
    WatcherAlreadyInitialized,
    /// No device stands behind the given id.
    DeviceNotFoundError,
    /// The device lacks the serial number that its protocol version asks for.
    InvalidDeviceError,
}

} // verus!
