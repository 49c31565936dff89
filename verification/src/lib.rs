//! Verified core of a Network UPS Tools style server: the text protocol
//! (commands, responses, escaping) and the USB HID report logic used to talk
//! to UPS devices.

pub mod address;
pub mod command;
pub mod device;
pub mod error;
pub mod order;
pub mod response;
pub mod settings;
pub mod string_escape;
pub mod variable;
pub mod text;
pub mod usb_hid;
