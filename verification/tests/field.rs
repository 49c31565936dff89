use hid_types::id::{KnownUnit, Unit};
use modnut::usb_hid::report::error::UsbHidReportError;
use modnut::usb_hid::report::field::{
    extract_logical_value, extract_value, UsbHidPhysicalScaling, UsbHidReportVariableField,
};
use modnut::usb_hid::usage::HidUsage;

/// The physical value that a scaling stands for, computed as the HID
/// specification scales logical values.
fn physical_value(scaling: &UsbHidPhysicalScaling) -> f64 {
    let unscaled_physical_value = scaling.physical_minimum as f64
        + (scaling.logical_value - scaling.logical_minimum) as f64
            / (scaling.logical_maximum - scaling.logical_minimum) as f64
            * (scaling.physical_maximum - scaling.physical_minimum) as f64;
    unscaled_physical_value * 10f64.powi(scaling.unit_exponent)
}

fn extract_physical_value(
    field: &UsbHidReportVariableField,
    buffer: &[u8],
) -> Result<Option<f64>, UsbHidReportError> {
    field
        .extract_physical_scaling(buffer)
        .map(|scaling| scaling.map(|scaling| physical_value(&scaling)))
}

fn inch() -> Option<u32> {
    Some(Unit::Known(KnownUnit::Inch).to_integer())
}

fn ups_usage() -> HidUsage {
    HidUsage::new(0x84, 0x04)
}

#[test]
fn should_extract_value_1() {
    let report_id = Some(0x55);
    let bits = 11..15;
    let buffer = vec![0x55; 15];

    let result = extract_value(report_id, &bits, &buffer);
    assert_eq!(result, Ok(vec![0x0a]));
}

#[test]
fn should_extract_value_2() {
    let report_id = Some(0x55);
    let bits = 8..(15 * 8);
    let buffer = vec![0x55; 15];

    let result = extract_value(report_id, &bits, &buffer);
    assert_eq!(result, Ok(buffer[1..].to_vec()));
}

#[test]
fn should_extract_value_3() {
    let report_id = Some(0x55);
    let bits = 8..8;
    let buffer = vec![0x55; 15];

    let result = extract_value(report_id, &bits, &buffer);
    assert_eq!(result, Ok(vec![]));
}

#[test]
fn should_extract_value_4() {
    let report_id = Some(0x55);
    let bits = 8..24;
    let buffer = vec![0x55; 15];

    let result = extract_value(report_id, &bits, &buffer);
    assert_eq!(result, Ok(vec![0x55, 0x55]));
}

#[test]
fn should_not_extract_value_when_report_id_is_invalid() {
    let report_id = Some(0x11);
    let bits = 11..15;
    let buffer = vec![0x55; 15];

    let result = extract_value(report_id, &bits, &buffer);
    assert_eq!(result, Err(UsbHidReportError::InvalidReportId));
}

#[test]
fn should_not_extract_value_when_buffer_is_too_small() {
    let report_id = Some(0x55);
    let bits = 16..24;
    let buffer = vec![0x55; 2];

    let result = extract_value(report_id, &bits, &buffer);
    assert_eq!(result, Err(UsbHidReportError::InvalidBufferSize));
}

#[test]
fn should_extract_logical_value_1() {
    let report_id = Some(0x55);
    let bits = 11..14;
    let logical_minimum = Some(-128);
    let logical_maximum = Some(127);
    let buffer = vec![0x55; 15];

    let result = extract_logical_value(report_id, &bits, logical_minimum, logical_maximum, &buffer, true);
    assert_eq!(result, Ok(Some(2)));
}

#[test]
fn should_extract_logical_value_2() {
    let report_id = Some(0x55);
    let bits = 11..15;
    let logical_minimum = Some(-128);
    let logical_maximum = Some(127);
    let buffer = vec![0x55; 15];

    let result = extract_logical_value(report_id, &bits, logical_minimum, logical_maximum, &buffer, true);
    assert_eq!(result, Ok(Some(-6)));
}

#[test]
fn should_extract_logical_value_3() {
    let report_id = Some(0xff);
    let bits = 8..40;
    let logical_minimum = Some(i32::MIN);
    let logical_maximum = Some(i32::MAX);
    let buffer = vec![0xff; 15];

    let result = extract_logical_value(report_id, &bits, logical_minimum, logical_maximum, &buffer, true);
    assert_eq!(result, Ok(Some(-1)));
}

#[test]
fn should_extract_logical_value_4() {
    let report_id = Some(0x00);
    let bits = 8..40;
    let logical_minimum = Some(i32::MIN);
    let logical_maximum = Some(i32::MAX);
    let buffer = {
        let mut buffer = vec![0x00; 15];
        buffer[4] = 0b1000_0000;
        buffer
    };

    let result = extract_logical_value(report_id, &bits, logical_minimum, logical_maximum, &buffer, true);
    assert_eq!(result, Ok(Some(i32::MIN as i64)));
}

#[test]
fn should_not_extract_logical_value_when_report_id_is_invalid() {
    let report_id = Some(0x11);
    let bits = 11..14;
    let logical_minimum = Some(-128);
    let logical_maximum = Some(127);
    let buffer = vec![0x55; 15];

    let result = extract_logical_value(report_id, &bits, logical_minimum, logical_maximum, &buffer, true);
    assert_eq!(result, Err(UsbHidReportError::InvalidReportId));
}

#[test]
fn should_not_extract_logical_value_when_logical_minimum_above_maximum() {
    let report_id = Some(0x55);
    let bits = 11..14;
    let logical_minimum = Some(127);
    let logical_maximum = Some(-128);
    let buffer = vec![0x55; 15];

    let result = extract_logical_value(report_id, &bits, logical_minimum, logical_maximum, &buffer, true);
    assert_eq!(result, Err(UsbHidReportError::InvalidLogicalValueRange));
}

#[test]
fn should_not_extract_logical_value_when_logical_value_is_out_of_range() {
    let report_id = Some(0x55);
    let bits = 9..17;
    let logical_minimum = Some(-1);
    let logical_maximum = Some(i32::MAX);
    let buffer = vec![0x55; 15];

    let result = extract_logical_value(report_id, &bits, logical_minimum, logical_maximum, &buffer, true);
    assert_eq!(result, Err(UsbHidReportError::LogicalValueOutOfRange));
}

#[test]
fn should_not_extract_logical_value_when_logical_value_is_out_of_range_and_validate_value_range_is_false() {
    let report_id = Some(0x55);
    let bits = 9..17;
    let logical_minimum = Some(-1);
    let logical_maximum = Some(i32::MAX);
    let buffer = vec![0x55; 15];

    let result = extract_logical_value(report_id, &bits, logical_minimum, logical_maximum, &buffer, false);
    assert_eq!(result, Ok(None));
}

fn physical_field(report_id: u8, physical_minimum: i32, physical_maximum: i32) -> UsbHidReportVariableField {
    UsbHidReportVariableField {
        is_constant: false,
        report_id: Some(report_id),
        usage: ups_usage(),
        designator_index: None,
        string_index: None,
        bits: 8..16,
        logical_minimum: Some(-127),
        logical_maximum: Some(127),
        physical_minimum: Some(physical_minimum),
        physical_maximum: Some(physical_maximum),
        unit_exponent: Some(-4),
        unit: inch(),
    }
}

#[test]
fn should_extract_physical_value_1() {
    let target = physical_field(127, -3175, 3175);

    let buffer = vec![127; 2];
    let result = extract_physical_value(&target, &buffer);
    assert_eq!(result, Ok(Some(0.3175)));
}

#[test]
fn should_extract_physical_value_2() {
    let target = physical_field((-127i8) as u8, -3175, 3175);

    let buffer = vec![(-127i8) as u8; 2];
    let result = extract_physical_value(&target, &buffer);
    assert_eq!(result, Ok(Some(-0.3175)));
}

#[test]
fn should_extract_physical_value_3() {
    let target = physical_field(0, -3175, 3175);

    let buffer = vec![0; 2];
    let result = extract_physical_value(&target, &buffer);
    assert_eq!(result, Ok(Some(0.0)));
}

#[test]
fn should_not_extract_physical_value_when_physical_minimum_above_maximum() {
    let target = physical_field(0, 3175, -3175);

    let buffer = vec![0; 2];
    let result = extract_physical_value(&target, &buffer);
    assert_eq!(result, Err(UsbHidReportError::InvalidPhysicalValueRange));
}

#[test]
fn physical_scaling_reads_the_integers_of_the_formula() {
    let target = physical_field(127, -3175, 3175);

    let result = target.extract_physical_scaling(&[127, 127]);
    assert_eq!(
        result,
        Ok(Some(UsbHidPhysicalScaling {
            logical_value: 127,
            logical_minimum: -127,
            logical_maximum: 127,
            physical_minimum: -3175,
            physical_maximum: 3175,
            unit_exponent: -4,
        }))
    );
}

#[test]
fn physical_scaling_remaps_a_four_bit_unit_exponent() {
    let mut target = physical_field(127, -3175, 3175);
    target.unit_exponent = Some(0x0c);

    let result = target.extract_physical_scaling(&[127, 127]);
    assert_eq!(result.map(|scaling| scaling.map(|scaling| scaling.unit_exponent)), Ok(Some(-4)));
}

#[test]
fn physical_scaling_uses_the_logical_range_when_both_physical_bounds_are_zero() {
    let mut target = physical_field(127, 0, 0);
    target.unit_exponent = None;

    let result = target.extract_physical_scaling(&[127, 127]);
    let scaling = result.unwrap().unwrap();
    assert_eq!((scaling.physical_minimum, scaling.physical_maximum, scaling.unit_exponent), (-127, 127, 0));
}

#[test]
fn logical_value_without_bounds_is_none() {
    let result = extract_logical_value(Some(0x55), &(8..16), None, Some(127), &[0x55, 0x01], true);
    assert_eq!(result, Ok(None));
}

#[test]
fn logical_value_of_a_field_wider_than_32_bits_is_none() {
    let result = extract_logical_value(None, &(0..33), Some(0), Some(1), &[0xff; 8], true);
    assert_eq!(result, Ok(None));
}

#[test]
fn extract_value_without_report_id_reads_from_bit_zero() {
    let result = extract_value(None, &(4..12), &[0xab, 0xcd]);
    assert_eq!(result, Ok(vec![0xda]));
}

#[test]
fn a_wide_field_has_no_logical_value_without_reading_the_report() {
    let result = extract_logical_value(Some(0x55), &(0..40), Some(0), Some(1), &[], true);
    assert_eq!(result, Ok(None));
}

#[test]
fn a_reversed_logical_range_fails_without_reading_the_report() {
    let result = extract_logical_value(Some(0x55), &(8..16), Some(5), Some(5), &[], true);
    assert_eq!(result, Err(UsbHidReportError::InvalidLogicalValueRange));
}
