//! The hardware bus: what a device is, and the clock as a reference device.

pub mod clock;
pub mod device;

pub use crate::hardware::clock::Clock;
pub use crate::hardware::device::{Hardware, HardwareInfo};
