//! The settings of a UPS device reached over USB HID.

use vstd::prelude::*;

verus! {

/// A UPS device to look for on the USB bus: the name to give it and the
/// vendor and product IDs to know it by.
#[derive(Debug, Clone)]
pub struct ModNutUpsDriverUsbHidSettings {
    pub name: String,
    pub vendor_id: u16,
    pub product_id: u16,
}

} // verus!
