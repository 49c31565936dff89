//! The errors met while bringing up a UPS device.

use vstd::prelude::*;
use crate::usb_hid::report::error::UsbHidReportError;
use crate::usb_hid::report::items::UsbHidDecodeError;

verus! {

/// Why a UPS device could not be brought up.
#[derive(Debug, Clone)]
pub enum ModNutError {
    /// The HID layer failed talking to the device; its message.
    HidApi(String),
    /// The report descriptor bytes could not be split into items.
    HidDecodeLengthError(UsbHidDecodeError),
    /// The report descriptor items do not describe valid reports.
    UsbHidReport(UsbHidReportError),
}

impl From<UsbHidDecodeError> for ModNutError {
    fn from(error: UsbHidDecodeError) -> (e: Self) {
        ModNutError::HidDecodeLengthError(error)
    }
}

impl vstd::std_specs::convert::FromSpecImpl<UsbHidDecodeError> for ModNutError {
    open spec fn obeys_from_spec() -> bool {
        true
    }

    open spec fn from_spec(error: UsbHidDecodeError) -> Self {
        ModNutError::HidDecodeLengthError(error)
    }
}

impl From<UsbHidReportError> for ModNutError {
    fn from(error: UsbHidReportError) -> (e: Self) {
        ModNutError::UsbHidReport(error)
    }
}

impl vstd::std_specs::convert::FromSpecImpl<UsbHidReportError> for ModNutError {
    open spec fn obeys_from_spec() -> bool {
        true
    }

    open spec fn from_spec(error: UsbHidReportError) -> Self {
        ModNutError::UsbHidReport(error)
    }
}

} // verus!
