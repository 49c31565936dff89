//! USB HID report descriptors and the values carried in HID reports.

pub mod device;
pub mod driver;
pub mod report;
pub mod settings;
pub mod usage;
