//! Inventory of the applications installed on an Android device, as reported
//! by the device bridge tool (`adb`): parsing of its text output, the
//! case-insensitive ordering and filtering of package names, and the
//! interpretation of uninstall results.
pub mod bridge;
pub mod manager;
pub mod order;
pub mod text;

pub use bridge::BridgeCommand;
pub use manager::{removal_outcome, ADBAppManager, DeviceDescriptor, RemovalOutcome};
