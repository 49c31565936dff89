//! A UPS device reached over USB HID: what it says of itself, and the report
//! descriptor it lays its reports out with.

use vstd::prelude::*;
use crate::device::{copy_optional, optional_text, UpsDevice};
use crate::error::ModNutError;
use crate::usb_hid::report::builder::{spec_build, BuildFailure, UsbHidReportDescriptorBuilder};
use crate::usb_hid::report::items::{decode_report_descriptor, descriptor_items};
use crate::usb_hid::report::{UsbHidReportCollection, UsbHidReportDescriptor, UsbHidReportDescriptorView};
use crate::usb_hid::usage::{HidUsage, POWER_USAGE_PAGE, UPS_USAGE_ID};

verus! {

/// What report descriptor bytes give: the descriptor, or the error that stops
/// it; `None` where a field offset or report size does not fit its integer
/// type.
pub open spec fn report_descriptor_outcome(bytes: Seq<u8>) -> Option<Result<UsbHidReportDescriptorView, ModNutError>> {
    match descriptor_items(bytes) {
        Err(e) => Some(Err(ModNutError::HidDecodeLengthError(e))),
        Ok(items) => match spec_build(items) {
            Ok(d) => Some(Ok(d)),
            Err(BuildFailure::Error(e)) => Some(Err(ModNutError::UsbHidReport(e))),
            Err(BuildFailure::ArithmeticOverflow) => None,
        },
    }
}

/// Decodes report descriptor bytes and builds the descriptor they describe;
/// `None` where a field offset or report size would not fit its integer type.
pub fn try_parse_report_descriptor(bytes: &[u8]) -> (r: Option<Result<UsbHidReportDescriptor, ModNutError>>)
    ensures
        match r {
            None => report_descriptor_outcome(bytes@) is None,
            Some(Ok(d)) => report_descriptor_outcome(bytes@) == Some(Ok::<UsbHidReportDescriptorView, ModNutError>(d@)),
            Some(Err(e)) => report_descriptor_outcome(bytes@) == Some(Err::<UsbHidReportDescriptorView, ModNutError>(e)),
        },
{
    let items = match decode_report_descriptor(bytes) {
        Ok(items) => items,
        Err(e) => return Some(Err(ModNutError::HidDecodeLengthError(e))),
    };
    let builder = UsbHidReportDescriptorBuilder::new();
    match builder.try_build(items) {
        None => None,
        Some(Ok(d)) => Some(Ok(d)),
        Some(Err(e)) => Some(Err(ModNutError::UsbHidReport(e))),
    }
}

/// The usage of an uninterruptible power supply.
pub open spec fn ups_usage() -> HidUsage {
    HidUsage { page: POWER_USAGE_PAGE, id: UPS_USAGE_ID }
}

/// Whether some top-level collection of the descriptor has the usage of an
/// uninterruptible power supply.
pub open spec fn has_ups_root_collection(d: UsbHidReportDescriptorView) -> bool {
    exists|i: int| 0 <= i < d.root_collections.len() && #[trigger] d.root_collections[i].usage == ups_usage()
}

/// Whether some top-level collection of the descriptor has the usage of an
/// uninterruptible power supply.
pub fn ups_usage_exists(descriptor: &UsbHidReportDescriptor) -> (r: bool)
    ensures
        r == has_ups_root_collection(descriptor@),
{
    let roots = descriptor.root_collections();
    let ups = HidUsage::ups();
    let ghost views = roots@.map_values(|c: UsbHidReportCollection| c@);
    let mut i: usize = 0;
    while i < roots.len()
        invariant
            i <= roots.len(),
            views == roots@.map_values(|c: UsbHidReportCollection| c@),
            views == descriptor@.root_collections,
            ups == ups_usage(),
            forall|j: int| 0 <= j < i ==> views[j].usage != ups_usage(),
        decreases roots.len() - i,
    {
        let usage = roots[i].usage();
        if usage == ups {
            assert(views[i as int].usage == ups_usage());
            return true;
        }
        i = i + 1;
    }
    false
}

/// A UPS device on the USB bus: its configured name, the strings it reports
/// and whether its report descriptor has a top-level UPS collection.
pub struct UpsDeviceUsbHid {
    name: String,
    manufacturer_name: Option<String>,
    product_name: Option<String>,
    serial_number: Option<String>,
    ups_usage_exists: bool,
}

pub struct UpsDeviceUsbHidView {
    pub name: Seq<char>,
    pub manufacturer_name: Option<Seq<char>>,
    pub product_name: Option<Seq<char>>,
    pub serial_number: Option<Seq<char>>,
    pub ups_usage_exists: bool,
}

impl View for UpsDeviceUsbHid {
    type V = UpsDeviceUsbHidView;

    closed spec fn view(&self) -> UpsDeviceUsbHidView {
        UpsDeviceUsbHidView {
            name: self.name@,
            manufacturer_name: optional_text(self.manufacturer_name),
            product_name: optional_text(self.product_name),
            serial_number: optional_text(self.serial_number),
            ups_usage_exists: self.ups_usage_exists,
        }
    }
}

/// Where report descriptor bytes would make a field offset or report size
/// overflow.
pub open spec fn descriptor_overflows(bytes: Seq<u8>) -> bool {
    report_descriptor_outcome(bytes) is None
}

impl UpsDeviceUsbHid {
    /// A device named `name`, with the strings the device reports, whose report
    /// descriptor is `report_descriptor`. Fails where the descriptor cannot be
    /// decoded or built; otherwise notes whether it has a top-level UPS
    /// collection. Descriptors whose field offsets or report sizes would
    /// overflow are left out by `requires`; `try_new` takes them too.
    pub fn new(
        name: String,
        manufacturer_name: Option<String>,
        product_name: Option<String>,
        serial_number: Option<String>,
        report_descriptor: &[u8],
    ) -> (r: Result<Self, ModNutError>)
        requires
            !descriptor_overflows(report_descriptor@),
        ensures
            match r {
                Ok(device) => {
                    &&& report_descriptor_outcome(report_descriptor@) matches Some(Ok(d))
                    &&& device@ == (UpsDeviceUsbHidView {
                        name: name@,
                        manufacturer_name: optional_text(manufacturer_name),
                        product_name: optional_text(product_name),
                        serial_number: optional_text(serial_number),
                        ups_usage_exists: has_ups_root_collection(d),
                    })
                },
                Err(e) => report_descriptor_outcome(report_descriptor@) == Some(Err::<UsbHidReportDescriptorView, ModNutError>(e)),
            },
    {
        match try_parse_report_descriptor(report_descriptor) {
            None => vstd::pervasive::unreached(),
            Some(Err(e)) => Err(e),
            Some(Ok(descriptor)) => {
                let ups_usage_exists = ups_usage_exists(&descriptor);
                Ok(UpsDeviceUsbHid { name, manufacturer_name, product_name, serial_number, ups_usage_exists })
            },
        }
    }

    /// As `new`, or `None` where the descriptor's field offsets or report sizes
    /// would overflow.
    pub fn try_new(
        name: String,
        manufacturer_name: Option<String>,
        product_name: Option<String>,
        serial_number: Option<String>,
        report_descriptor: &[u8],
    ) -> (r: Option<Result<Self, ModNutError>>)
        ensures
            match r {
                None => descriptor_overflows(report_descriptor@),
                Some(Ok(device)) => {
                    &&& report_descriptor_outcome(report_descriptor@) matches Some(Ok(d))
                    &&& device@ == (UpsDeviceUsbHidView {
                        name: name@,
                        manufacturer_name: optional_text(manufacturer_name),
                        product_name: optional_text(product_name),
                        serial_number: optional_text(serial_number),
                        ups_usage_exists: has_ups_root_collection(d),
                    })
                },
                Some(Err(e)) => report_descriptor_outcome(report_descriptor@) == Some(Err::<UsbHidReportDescriptorView, ModNutError>(e)),
            },
    {
        match try_parse_report_descriptor(report_descriptor) {
            None => None,
            Some(_) => Some(Self::new(name, manufacturer_name, product_name, serial_number, report_descriptor)),
        }
    }

    /// Whether the report descriptor has a top-level collection with the
    /// usage of an uninterruptible power supply.
    pub fn has_ups_usage(&self) -> (r: bool)
        ensures
            r == self@.ups_usage_exists,
    {
        self.ups_usage_exists
    }
}

impl UpsDevice for UpsDeviceUsbHid {
    fn name(&self) -> (r: String)
        ensures
            r@ == self@.name,
    {
        self.name.clone()
    }

    fn manufacturer_name(&self) -> (r: Option<String>)
        ensures
            optional_text(r) == self@.manufacturer_name,
    {
        copy_optional(&self.manufacturer_name)
    }

    fn product_name(&self) -> (r: Option<String>)
        ensures
            optional_text(r) == self@.product_name,
    {
        copy_optional(&self.product_name)
    }

    fn serial_number(&self) -> (r: Option<String>)
        ensures
            optional_text(r) == self@.serial_number,
    {
        copy_optional(&self.serial_number)
    }
}

} // verus!
