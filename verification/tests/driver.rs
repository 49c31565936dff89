use modnut::usb_hid::driver::{select_configured_devices, select_ups_device_paths, HidDeviceEntry};
use modnut::usb_hid::settings::ModNutUpsDriverUsbHidSettings;

fn device(vendor_id: u16, product_id: u16, usage_page: u16, usage: u16, path: &str) -> HidDeviceEntry {
    HidDeviceEntry { vendor_id, product_id, usage_page, usage, path: path.as_bytes().to_vec() }
}

fn settings(name: &str, vendor_id: u16, product_id: u16) -> ModNutUpsDriverUsbHidSettings {
    ModNutUpsDriverUsbHidSettings { name: name.to_string(), vendor_id, product_id }
}

#[test]
fn selects_each_ups_path_once_in_order() {
    let devices = vec![
        device(1, 1, 0x84, 0x04, "/dev/hidraw2"),
        device(1, 1, 0x01, 0x06, "/dev/hidraw0"),
        device(2, 2, 0x84, 0x04, "/dev/hidraw1"),
        device(1, 1, 0x84, 0x04, "/dev/hidraw2"),
        device(3, 3, 0x84, 0x05, "/dev/hidraw3"),
    ];

    let paths = select_ups_device_paths(&devices);
    assert_eq!(paths, vec![b"/dev/hidraw1".to_vec(), b"/dev/hidraw2".to_vec()]);
}

#[test]
fn selects_nothing_without_ups() {
    let devices = vec![device(1, 1, 0x01, 0x06, "kbd")];
    assert!(select_ups_device_paths(&devices).is_empty());
}

#[test]
fn selects_configured_devices_by_name_then_path() {
    let devices = vec![
        device(0x0764, 0x0501, 0x84, 0x04, "/dev/hidraw5"),
        device(0x051d, 0x0002, 0x84, 0x04, "/dev/hidraw1"),
        device(0x0764, 0x0501, 0x84, 0x04, "/dev/hidraw3"),
        device(0x1234, 0x5678, 0x84, 0x04, "/dev/hidraw0"),
        device(0x051d, 0x0002, 0x84, 0x04, "/dev/hidraw1"),
    ];
    let settings = vec![
        settings("cyberpower", 0x0764, 0x0501),
        settings("apc", 0x051d, 0x0002),
        settings("ignored", 0x0764, 0x0501),
    ];

    let selected = select_configured_devices(&devices, &settings);
    assert_eq!(
        selected,
        vec![
            ("apc".to_string(), b"/dev/hidraw1".to_vec()),
            ("cyberpower".to_string(), b"/dev/hidraw3".to_vec()),
            ("cyberpower".to_string(), b"/dev/hidraw5".to_vec()),
        ]
    );
}

#[test]
fn sorts_names_by_code_point_then_paths_by_byte() {
    let devices = vec![
        device(1, 1, 0, 0, "b"),
        device(2, 2, 0, 0, "a"),
        device(3, 3, 0, 0, "ab"),
        device(4, 4, 0, 0, "a"),
    ];
    let settings = vec![settings("éclair", 1, 1), settings("Zed", 2, 2), settings("Zed", 3, 3), settings("zed", 4, 4)];

    let selected = select_configured_devices(&devices, &settings);
    let mut expected = vec![
        ("éclair".to_string(), b"b".to_vec()),
        ("Zed".to_string(), b"a".to_vec()),
        ("Zed".to_string(), b"ab".to_vec()),
        ("zed".to_string(), b"a".to_vec()),
    ];
    expected.sort();
    assert_eq!(selected, expected);
}
