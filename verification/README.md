# modnut

A server in the style of Network UPS Tools that talks to UPS devices over
USB HID.

- `src/` is the verified library:
  - `command`, `response`, `variable`, `address`, `string_escape`, `text`: the
    text protocol. Every command and response has a `text()` specification and
    a `to_string()` proved to produce it; escaping is proved to be undone by
    unescaping.
  - `usb_hid::report`: report descriptors. `items` reads descriptor bytes
    through `hid-decode`; `builder` is the descriptor builder, specified as a
    state machine over the items (`spec_build`) and proved against it, with
    laws on what every build keeps (one report per report ID, fields laid out
    one after another, collections' reports in report-ID order); `field`
    reads bits, logical values and the physical scaling of fields.
  - `usb_hid::device`, `usb_hid::driver`: bringing up a UPS device from its
    report descriptor, and choosing which devices on the bus to bring up, each
    once, in sorted order.
- `app/` is the program around it: settings, logging, `hidapi` I/O, and the
  floating-point physical value.
- `tests/` runs the library on concrete values.
