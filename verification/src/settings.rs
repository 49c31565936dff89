//! The server's settings.

use vstd::prelude::*;
use crate::usb_hid::settings::ModNutUpsDriverUsbHidSettings;

verus! {

/// All of the server's settings.
#[derive(Debug, Clone)]
pub struct ModNutSettings {
    pub driver: ModNutUpsDriverSettings,
}

/// The settings of the UPS drivers.
#[derive(Debug, Clone)]
pub struct ModNutUpsDriverSettings {
    /// The UPS devices to look for on the USB bus.
    pub usb_hid: Vec<ModNutUpsDriverUsbHidSettings>,
}

} // verus!
