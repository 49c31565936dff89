use modnut::device::UpsDevice;
use modnut::error::ModNutError;
use modnut::usb_hid::device::{try_parse_report_descriptor, ups_usage_exists, UpsDeviceUsbHid};
use modnut::usb_hid::report::builder::{UsbHidReportCollectionBuilder, UsbHidReportDescriptorBuilder};
use modnut::usb_hid::report::error::UsbHidReportError;
use modnut::usb_hid::report::field::UsbHidReportField;
use modnut::usb_hid::report::items::{
    decode_report_descriptor, GlobalItem, LocalItem, MainItem, ReportDescriptorItem, UsbHidDecodeError,
};
use modnut::usb_hid::report::{UsbHidReport, UsbHidReportCollection};
use modnut::usb_hid::usage::HidUsage;

/// A UPS application collection with one Input report (ID 1) holding an
/// 8-bit voltage.
const UPS_DESCRIPTOR: [u8; 19] = [
    0x05, 0x84, // Usage Page (Power Device)
    0x09, 0x04, // Usage (UPS)
    0xa1, 0x01, // Collection (Application)
    0x85, 0x01, //   Report ID (1)
    0x09, 0x30, //   Usage (Voltage)
    0x15, 0x00, //   Logical Minimum (0)
    0x26, 0xff, 0x00, // Logical Maximum (255)
    0x75, 0x08, //   Report Size (8)
    0x95, 0x01, //   Report Count (1)
];

fn ups_descriptor() -> Vec<u8> {
    let mut bytes = UPS_DESCRIPTOR.to_vec();
    bytes.extend_from_slice(&[0x81, 0x02, 0xc0]); // Input (Data, Variable), End Collection
    bytes
}

fn global(item: GlobalItem) -> ReportDescriptorItem {
    ReportDescriptorItem::Global(item)
}

fn local(item: LocalItem) -> ReportDescriptorItem {
    ReportDescriptorItem::Local(item)
}

fn main_item(item: MainItem) -> ReportDescriptorItem {
    ReportDescriptorItem::Main(item)
}

fn variable_usage(field: &UsbHidReportField) -> HidUsage {
    match field {
        UsbHidReportField::Variable(variable) => variable.usage,
        _ => panic!("not a variable field"),
    }
}

#[test]
fn decodes_the_items_of_a_descriptor() {
    let items = decode_report_descriptor(&ups_descriptor()).unwrap();

    assert_eq!(
        items,
        vec![
            global(GlobalItem::UsagePage(0x84)),
            local(LocalItem::Usage(0x04)),
            main_item(MainItem::Collection(0x01)),
            global(GlobalItem::ReportId(1)),
            local(LocalItem::Usage(0x30)),
            global(GlobalItem::LogicalMinimum(0)),
            global(GlobalItem::LogicalMaximum(255)),
            global(GlobalItem::ReportSize(8)),
            global(GlobalItem::ReportCount(1)),
            main_item(MainItem::Input(0x02)),
            main_item(MainItem::EndCollection),
        ]
    );
}

#[test]
fn decoding_truncated_bytes_fails() {
    assert_eq!(decode_report_descriptor(&[0x05]), Err(UsbHidDecodeError::Truncated));
}

#[test]
fn builds_a_ups_descriptor() {
    let descriptor = try_parse_report_descriptor(&ups_descriptor()).unwrap().unwrap();

    let inputs: &[UsbHidReport] = descriptor.input_reports();
    assert_eq!(inputs.len(), 1);
    assert_eq!(inputs[0].report_id(), Some(1));
    assert_eq!(inputs[0].size_in_bits(), 16);
    assert_eq!(inputs[0].size_in_bytes(), 2);
    assert_eq!(inputs[0].fields().len(), 1);
    assert_eq!(inputs[0].fields()[0].bits(), &(8..16));
    assert_eq!(variable_usage(&inputs[0].fields()[0]), HidUsage::new(0x84, 0x30));
    assert!(descriptor.output_reports().is_empty());
    assert!(descriptor.feature_reports().is_empty());

    let roots: &[UsbHidReportCollection] = descriptor.root_collections();
    assert_eq!(roots.len(), 1);
    assert_eq!(roots[0].usage(), HidUsage::ups());
    assert_eq!(roots[0].collection_type(), 0x01);
    assert_eq!(roots[0].input_reports().len(), 1);
    assert_eq!(descriptor.all_input_reports().len(), 1);
    assert_eq!(descriptor.all_collections().len(), 1);
    assert!(ups_usage_exists(&descriptor));
}

#[test]
fn reads_a_logical_value_from_a_built_report() {
    let descriptor = try_parse_report_descriptor(&ups_descriptor()).unwrap().unwrap();
    let field = match &descriptor.input_reports()[0].fields()[0] {
        UsbHidReportField::Variable(variable) => variable,
        _ => panic!("not a variable field"),
    };

    assert_eq!(field.extract_logical_value(&[0x01, 230]), Ok(Some(230)));
}

#[test]
fn nested_collections_carry_their_own_reports() {
    let items = vec![
        global(GlobalItem::UsagePage(0x84)),
        local(LocalItem::Usage(0x04)),
        main_item(MainItem::Collection(0x01)),
        local(LocalItem::Usage(0x1a)),
        main_item(MainItem::Collection(0x00)),
        global(GlobalItem::ReportId(2)),
        local(LocalItem::Usage(0x30)),
        global(GlobalItem::ReportSize(16)),
        global(GlobalItem::ReportCount(1)),
        main_item(MainItem::Feature(0x02)),
        main_item(MainItem::EndCollection),
        global(GlobalItem::ReportId(1)),
        local(LocalItem::Usage(0x31)),
        main_item(MainItem::Feature(0x02)),
        main_item(MainItem::EndCollection),
    ];

    let descriptor = UsbHidReportDescriptorBuilder::new().build(items).unwrap();

    let features = descriptor.feature_reports();
    assert_eq!(features.len(), 2);
    assert_eq!(features[0].report_id(), Some(2));
    assert_eq!(features[1].report_id(), Some(1));
    let root = &descriptor.root_collections()[0];
    assert_eq!(root.feature_reports().len(), 1);
    assert_eq!(root.feature_reports()[0].report_id(), Some(1));
    assert_eq!(root.child_collections().len(), 1);
    assert_eq!(root.child_collections()[0].usage(), HidUsage::new(0x84, 0x1a));
    assert_eq!(root.child_collections()[0].feature_reports()[0].report_id(), Some(2));
    assert_eq!(root.all_child_collections().len(), 1);
    let all_features = root.all_feature_reports();
    assert_eq!(all_features.len(), 2);
    assert_eq!(all_features[0].report_id(), Some(1));
    assert_eq!(all_features[1].report_id(), Some(2));
    assert_eq!(descriptor.all_collections().len(), 2);
}

#[test]
fn fields_of_one_report_id_go_to_one_report_one_after_another() {
    let items = vec![
        global(GlobalItem::UsagePage(0x84)),
        local(LocalItem::Usage(0x04)),
        main_item(MainItem::Collection(0x01)),
        global(GlobalItem::ReportId(3)),
        global(GlobalItem::ReportSize(8)),
        global(GlobalItem::ReportCount(1)),
        local(LocalItem::Usage(0x30)),
        main_item(MainItem::Input(0x02)),
        global(GlobalItem::ReportSize(4)),
        global(GlobalItem::ReportCount(2)),
        local(LocalItem::Usage(0x31)),
        local(LocalItem::Usage(0x32)),
        main_item(MainItem::Input(0x02)),
        main_item(MainItem::EndCollection),
    ];

    let descriptor = UsbHidReportDescriptorBuilder::new().build(items).unwrap();

    let inputs = descriptor.input_reports();
    assert_eq!(inputs.len(), 1);
    let report = &inputs[0];
    assert_eq!(report.size_in_bits(), 24);
    let bits: Vec<_> = report.fields().iter().map(|field| field.bits().clone()).collect();
    assert_eq!(bits, vec![8..16, 16..20, 20..24]);
    let usages: Vec<_> = report.fields().iter().map(variable_usage).collect();
    assert_eq!(usages, vec![HidUsage::new(0x84, 0x30), HidUsage::new(0x84, 0x31), HidUsage::new(0x84, 0x32)]);
}

#[test]
fn usage_ranges_give_one_usage_per_field_and_repeat_the_last() {
    let items = vec![
        global(GlobalItem::UsagePage(0x84)),
        local(LocalItem::Usage(0x04)),
        main_item(MainItem::Collection(0x01)),
        global(GlobalItem::ReportSize(1)),
        global(GlobalItem::ReportCount(3)),
        local(LocalItem::UsageMinimum(0x40)),
        local(LocalItem::UsageMaximum(0x41)),
        main_item(MainItem::Input(0x02)),
        main_item(MainItem::EndCollection),
    ];

    let descriptor = UsbHidReportDescriptorBuilder::new().build(items).unwrap();

    let usages: Vec<_> = descriptor.input_reports()[0].fields().iter().map(variable_usage).collect();
    assert_eq!(usages, vec![HidUsage::new(0x84, 0x40), HidUsage::new(0x84, 0x41), HidUsage::new(0x84, 0x41)]);
}

#[test]
fn fields_without_usage_are_padding() {
    let items = vec![
        global(GlobalItem::UsagePage(0x84)),
        local(LocalItem::Usage(0x04)),
        main_item(MainItem::Collection(0x01)),
        global(GlobalItem::ReportSize(3)),
        global(GlobalItem::ReportCount(1)),
        main_item(MainItem::Input(0x03)),
        main_item(MainItem::EndCollection),
    ];

    let descriptor = UsbHidReportDescriptorBuilder::new().build(items).unwrap();

    assert!(matches!(descriptor.input_reports()[0].fields()[0], UsbHidReportField::Padding(_)));
}

#[test]
fn building_fails_without_report_size() {
    let bytes = [0x05, 0x84, 0x09, 0x04, 0xa1, 0x01, 0x81, 0x02, 0xc0];
    let result = try_parse_report_descriptor(&bytes).unwrap();
    assert!(matches!(result, Err(ModNutError::UsbHidReport(UsbHidReportError::ReportSizeMissing))));
}

#[test]
fn building_fails_without_report_count() {
    let items = vec![
        global(GlobalItem::UsagePage(0x84)),
        local(LocalItem::Usage(0x04)),
        main_item(MainItem::Collection(0x01)),
        global(GlobalItem::ReportSize(8)),
        main_item(MainItem::Input(0x02)),
    ];
    let result = UsbHidReportDescriptorBuilder::new().build(items);
    assert!(matches!(result, Err(UsbHidReportError::ReportCountMissing)));
}

#[test]
fn building_fails_on_a_pop_without_push() {
    let result = UsbHidReportDescriptorBuilder::new().build(vec![global(GlobalItem::Pop)]);
    assert!(matches!(result, Err(UsbHidReportError::PopBeforePush)));
}

#[test]
fn push_and_pop_restore_the_global_items() {
    let items = vec![
        global(GlobalItem::UsagePage(0x84)),
        local(LocalItem::Usage(0x04)),
        main_item(MainItem::Collection(0x01)),
        global(GlobalItem::ReportSize(8)),
        global(GlobalItem::ReportCount(1)),
        global(GlobalItem::Push),
        global(GlobalItem::ReportSize(16)),
        global(GlobalItem::Pop),
        local(LocalItem::Usage(0x30)),
        main_item(MainItem::Input(0x02)),
        main_item(MainItem::EndCollection),
    ];
    let descriptor = UsbHidReportDescriptorBuilder::new().build(items).unwrap();
    assert_eq!(descriptor.input_reports()[0].size_in_bits(), 16);
}

#[test]
fn reports_gathered_from_collections_are_laid_out() {
    let items = vec![
        global(GlobalItem::UsagePage(0x84)),
        local(LocalItem::Usage(0x04)),
        main_item(MainItem::Collection(0x01)),
        local(LocalItem::Usage(0x1a)),
        main_item(MainItem::Collection(0x00)),
        global(GlobalItem::ReportId(2)),
        global(GlobalItem::ReportSize(4)),
        global(GlobalItem::ReportCount(3)),
        local(LocalItem::Usage(0x30)),
        main_item(MainItem::Input(0x02)),
        main_item(MainItem::EndCollection),
        main_item(MainItem::EndCollection),
    ];
    let descriptor = UsbHidReportDescriptorBuilder::new().build(items).unwrap();
    for report in descriptor.root_collections()[0].all_input_reports() {
        let bits: Vec<_> = report.fields().iter().map(|field| field.bits().clone()).collect();
        assert_eq!(bits, vec![8..12, 12..16, 16..20]);
        assert_eq!(report.size_in_bits(), 20);
    }
    assert_eq!(descriptor.all_input_reports().len(), 1);
}

#[test]
fn building_fails_on_a_usage_without_page() {
    let result = UsbHidReportDescriptorBuilder::new().build(vec![
        local(LocalItem::Usage(0x04)),
        main_item(MainItem::Collection(0x01)),
    ]);
    assert!(matches!(result, Err(UsbHidReportError::UsagePageMissing)));
}

#[test]
fn building_fails_on_a_collection_without_usage() {
    let result = UsbHidReportDescriptorBuilder::new().build(vec![main_item(MainItem::Collection(0x01))]);
    assert!(matches!(result, Err(UsbHidReportError::UsageMissing)));
}

#[test]
fn building_fails_on_a_usage_maximum_without_minimum() {
    let result = UsbHidReportDescriptorBuilder::new().build(vec![
        global(GlobalItem::UsagePage(0x84)),
        local(LocalItem::UsageMaximum(0x04)),
        main_item(MainItem::Collection(0x01)),
    ]);
    assert!(matches!(result, Err(UsbHidReportError::InvalidUsageRange)));
}

#[test]
fn building_fails_on_a_designator_maximum_without_minimum() {
    let result = UsbHidReportDescriptorBuilder::new().build(vec![
        global(GlobalItem::UsagePage(0x84)),
        local(LocalItem::Usage(0x04)),
        main_item(MainItem::Collection(0x01)),
        global(GlobalItem::ReportSize(8)),
        global(GlobalItem::ReportCount(1)),
        local(LocalItem::Usage(0x30)),
        local(LocalItem::DesignatorMaximum(2)),
        main_item(MainItem::Input(0x02)),
    ]);
    assert!(matches!(result, Err(UsbHidReportError::InvalidDesignatorIndexRange)));
}

#[test]
fn building_fails_on_a_string_minimum_twice() {
    let result = UsbHidReportDescriptorBuilder::new().build(vec![
        global(GlobalItem::UsagePage(0x84)),
        local(LocalItem::Usage(0x04)),
        main_item(MainItem::Collection(0x01)),
        global(GlobalItem::ReportSize(8)),
        global(GlobalItem::ReportCount(1)),
        local(LocalItem::Usage(0x30)),
        local(LocalItem::StringMinimum(1)),
        local(LocalItem::StringMinimum(2)),
        main_item(MainItem::Input(0x02)),
    ]);
    assert!(matches!(result, Err(UsbHidReportError::InvalidStringIndexRange)));
}

#[test]
fn building_fails_when_several_reports_lack_an_id() {
    let result = UsbHidReportDescriptorBuilder::new().build(vec![
        global(GlobalItem::UsagePage(0x84)),
        local(LocalItem::Usage(0x04)),
        main_item(MainItem::Collection(0x01)),
        global(GlobalItem::ReportSize(8)),
        global(GlobalItem::ReportCount(1)),
        main_item(MainItem::Input(0x03)),
        global(GlobalItem::ReportId(1)),
        main_item(MainItem::Input(0x03)),
        main_item(MainItem::EndCollection),
    ]);
    assert!(matches!(result, Err(UsbHidReportError::ReportIdMissing)));
}

#[test]
fn building_fails_on_an_unexpected_end_collection() {
    let result = UsbHidReportDescriptorBuilder::new().build(vec![main_item(MainItem::EndCollection)]);
    assert!(matches!(result, Err(UsbHidReportError::UnexpectedEndCollection)));
}

#[test]
fn building_fails_on_a_report_outside_any_collection() {
    let result = UsbHidReportDescriptorBuilder::new().build(vec![
        global(GlobalItem::ReportSize(8)),
        global(GlobalItem::ReportCount(1)),
        main_item(MainItem::Input(0x03)),
    ]);
    assert!(matches!(result, Err(UsbHidReportError::ReportOutsideCollection)));
}

#[test]
fn field_offsets_beyond_32_bits_are_refused() {
    let items = vec![
        global(GlobalItem::UsagePage(0x84)),
        local(LocalItem::Usage(0x04)),
        main_item(MainItem::Collection(0x01)),
        global(GlobalItem::ReportSize(u32::MAX)),
        global(GlobalItem::ReportCount(2)),
        main_item(MainItem::Input(0x03)),
        main_item(MainItem::EndCollection),
    ];
    assert!(UsbHidReportDescriptorBuilder::new().try_build(items).is_none());
}

#[test]
fn a_ups_device_keeps_its_strings_and_notes_its_ups_collection() {
    let device = UpsDeviceUsbHid::new(
        "myups".to_string(),
        Some("Maker".to_string()),
        Some("Model".to_string()),
        None,
        &ups_descriptor(),
    )
    .unwrap();

    assert_eq!(device.name(), "myups");
    assert_eq!(device.manufacturer_name(), Some("Maker".to_string()));
    assert_eq!(device.product_name(), Some("Model".to_string()));
    assert_eq!(device.serial_number(), None);
    assert!(device.has_ups_usage());
}

#[test]
fn a_device_without_ups_collection_is_noted() {
    let mut bytes = ups_descriptor();
    bytes[3] = 0x05;
    let device = UpsDeviceUsbHid::new("other".to_string(), None, None, None, &bytes).unwrap();

    assert!(!device.has_ups_usage());
}

#[test]
fn a_device_with_undecodable_descriptor_fails() {
    let result = UpsDeviceUsbHid::try_new("myups".to_string(), None, None, None, &[0x05]);
    assert!(matches!(result, Some(Err(ModNutError::HidDecodeLengthError(UsbHidDecodeError::Truncated)))));
}

#[test]
fn a_device_whose_field_offsets_overflow_is_refused() {
    let bytes = [
        0x05, 0x84, 0x09, 0x04, 0xa1, 0x01, 0x77, 0xff, 0xff, 0xff, 0xff, 0x95, 0x02, 0x81, 0x03, 0xc0,
    ];
    assert!(UpsDeviceUsbHid::try_new("myups".to_string(), None, None, None, &bytes).is_none());
    assert!(try_parse_report_descriptor(&bytes).is_none());
}

#[test]
fn a_collection_builder_records_each_report_id_once_in_order() {
    let mut builder = UsbHidReportCollectionBuilder::new(HidUsage::ups(), 0x01);
    builder.add_input_report_id(Some(3));
    builder.add_input_report_id(Some(1));
    builder.add_input_report_id(Some(3));
    builder.add_input_report_id(None);
    let reports = vec![
        UsbHidReport::new(Some(1), vec![]),
        UsbHidReport::new(Some(3), vec![]),
        UsbHidReport::new(None, vec![]),
    ];
    let collection = builder.build(&reports, &vec![], &vec![]);
    let ids: Vec<_> = collection.input_reports().iter().map(|r| r.report_id()).collect();
    assert_eq!(ids, vec![None, Some(1), Some(3)]);
}

#[test]
fn usages_round_trip_through_32_bit_values() {
    assert_eq!(HidUsage::from_u32(0x0084_0004), HidUsage::ups());
    assert_eq!(HidUsage::ups().to_u32(), 0x0084_0004);
    assert_eq!(HidUsage::from_u32(0x1234_5678).to_u32(), 0x1234_5678);
}

#[test]
fn decoding_an_end_collection_with_data_fails() {
    assert_eq!(decode_report_descriptor(&[0xc1, 0x00]), Err(UsbHidDecodeError::DataTooBig));
}

#[test]
fn a_ups_descriptor_from_extended_usages() {
    let items = vec![
        local(LocalItem::ExtendedUsage(0x0084_0004)),
        main_item(MainItem::Collection(0x01)),
        main_item(MainItem::EndCollection),
    ];
    let descriptor = UsbHidReportDescriptorBuilder::new().build(items).unwrap();
    assert!(ups_usage_exists(&descriptor));
}

#[test]
fn decodes_a_reserved_global_item_with_its_tag_and_value() {
    assert_eq!(
        decode_report_descriptor(&[0xc5, 0x07, 0xd4]),
        Ok(vec![global(GlobalItem::Reserved(12, Some(7))), global(GlobalItem::Reserved(13, None))])
    );
}

#[test]
fn reserved_global_items_leave_the_fields_alone() {
    let mut items = ups_descriptor_items();
    items.insert(3, global(GlobalItem::Reserved(14, Some(1))));
    let with_reserved = UsbHidReportDescriptorBuilder::new().build(items).unwrap();
    let plain = UsbHidReportDescriptorBuilder::new().build(ups_descriptor_items()).unwrap();
    assert_eq!(with_reserved.input_reports()[0].size_in_bits(), plain.input_reports()[0].size_in_bits());
    assert_eq!(with_reserved.input_reports()[0].fields()[0].bits(), plain.input_reports()[0].fields()[0].bits());
}

#[test]
fn a_push_and_pop_around_global_items_change_nothing() {
    let mut items = vec![
        global(GlobalItem::Push),
        global(GlobalItem::ReportSize(32)),
        global(GlobalItem::Reserved(15, Some(2))),
        global(GlobalItem::Pop),
    ];
    items.extend(ups_descriptor_items());
    let wrapped = UsbHidReportDescriptorBuilder::new().build(items).unwrap();
    assert_eq!(wrapped.input_reports()[0].size_in_bits(), 16);
}

fn ups_descriptor_items() -> Vec<ReportDescriptorItem> {
    decode_report_descriptor(&ups_descriptor()).unwrap()
}
