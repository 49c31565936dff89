//! Which of the HID devices on the bus are UPS devices to bring up.
//!
//! The HID layer lists the devices it sees; a device is chosen either because
//! its top-level usage is that of a UPS, or because the settings name its
//! vendor and product IDs. The chosen devices are brought up once each, in
//! ascending order of name and path.

use vstd::prelude::*;
use hid_types::id::usage::power;
use hid_types::id::UsagePage;
use hid_types::item::usage::{KnownUsage, Usage};
use crate::order::{
    byte_codes, bytes_less, char_codes, lemma_byte_codes_injective, lemma_char_codes_injective,
    lemma_lex_less_irreflexive, lemma_lex_less_total, lemma_lex_less_transitive, lex_less, text_less,
};
use crate::text::copy_vec;
use crate::usb_hid::settings::ModNutUpsDriverUsbHidSettings;
use crate::usb_hid::usage::{POWER_USAGE_PAGE, UPS_USAGE_ID};

verus! {

/// What the HID layer reports of one device.
#[derive(Debug, Clone)]
pub struct HidDeviceEntry {
    pub vendor_id: u16,
    pub product_id: u16,
    /// The usage page of the device's top-level collection.
    pub usage_page: u16,
    /// The usage ID of the device's top-level collection.
    pub usage: u16,
    /// The platform path to open the device by, without its terminating zero.
    pub path: Vec<u8>,
}

/// Whether `hid_types` reads a usage page and usage ID as the usage of an
/// uninterruptible power supply: `Usage::new(UsagePage::from_integer(page),
/// id)` equals `Usage::Known(KnownUsage::Power(power::KnownUsage::Ups))`
/// exactly where the page is the power device page (0x84) and the ID that of
/// a UPS (0x04).
#[verifier::external_body]
fn is_ups_usage(usage_page: u16, usage: u16) -> (r: bool)
    ensures
        r == (usage_page == POWER_USAGE_PAGE && usage == UPS_USAGE_ID),
{
    Usage::new(UsagePage::from_integer(usage_page), usage) == Usage::Known(KnownUsage::Power(power::KnownUsage::Ups))
}

/// Whether path `a` sorts strictly before path `b`.
pub open spec fn path_less(a: Seq<u8>, b: Seq<u8>) -> bool {
    lex_less(byte_codes(a), byte_codes(b))
}

/// Whether a list of paths is in strictly ascending order (so holds no path
/// twice).
pub open spec fn paths_ascending(paths: Seq<Seq<u8>>) -> bool {
    forall|i: int, j: int| 0 <= i < j < paths.len() ==> path_less(#[trigger] paths[i], #[trigger] paths[j])
}

/// The views of a list of paths.
pub open spec fn paths_view(paths: Seq<Vec<u8>>) -> Seq<Seq<u8>> {
    paths.map_values(|p: Vec<u8>| p@)
}

/// Whether a device's top-level usage is that of a UPS.
pub open spec fn is_ups_device(device: HidDeviceEntry) -> bool {
    device.usage_page == POWER_USAGE_PAGE && device.usage == UPS_USAGE_ID
}

/// Whether `path` is the path of a device of `devices` whose top-level usage
/// is that of a UPS.
pub open spec fn is_ups_device_path(devices: Seq<HidDeviceEntry>, path: Seq<u8>) -> bool {
    exists|k: int| 0 <= k < devices.len() && is_ups_device(devices[k]) && #[trigger] devices[k].path@ == path
}

proof fn lemma_path_order(a: Seq<u8>, b: Seq<u8>)
    ensures
        !path_less(a, a),
        a != b ==> path_less(a, b) || path_less(b, a),
        !path_less(a, b) && !path_less(b, a) ==> a == b,
{
    lemma_lex_less_irreflexive(byte_codes(a));
    if a != b {
        if byte_codes(a) == byte_codes(b) {
            lemma_byte_codes_injective(a, b);
        }
        lemma_lex_less_total(byte_codes(a), byte_codes(b));
    }
}

/// Inserts `path` into an ascending list of paths unless it is there already.
fn insert_path(paths: &mut Vec<Vec<u8>>, path: Vec<u8>)
    requires
        paths_ascending(paths_view(old(paths)@)),
    ensures
        paths_ascending(paths_view(final(paths)@)),
        forall|p: Seq<u8>| paths_view(final(paths)@).contains(p) <==> (paths_view(old(paths)@).contains(p) || p == path@),
{
    let ghost before = paths_view(paths@);
    let n = paths.len();
    let mut i: usize = 0;
    let mut done = false;
    while !done && i < n
        invariant
            i <= n,
            n == paths.len(),
            before == paths_view(paths@),
            forall|j: int| 0 <= j < i ==> path_less(#[trigger] before[j], path@),
            done ==> i < n && !path_less(before[i as int], path@),
        decreases n - i, if done { 0int } else { 1int },
    {
        if bytes_less(&paths[i], &path) {
            i = i + 1;
        } else {
            done = true;
        }
    }
    if done && !bytes_less(&path, &paths[i]) {
        proof {
            lemma_path_order(before[i as int], path@);
            assert(before.contains(path@));
        }
        return;
    }
    proof {
        if i < n {
            lemma_path_order(before[i as int], path@);
        }
    }
    paths.insert(i, path);
    let ghost after = paths_view(paths@);
    assert(after =~= before.insert(i as int, path@));
    assert forall|a: int, b: int| 0 <= a < b < after.len() implies path_less(#[trigger] after[a], #[trigger] after[b]) by {
        if b < i {
        } else if b == i {
        } else if a < i {
            if b - 1 > i {
                lemma_lex_less_transitive(byte_codes(path@), byte_codes(before[i as int]), byte_codes(before[b - 1]));
            }
            lemma_lex_less_transitive(byte_codes(after[a]), byte_codes(path@), byte_codes(after[b]));
        } else if a == i {
            if b - 1 > i {
                lemma_lex_less_transitive(byte_codes(path@), byte_codes(before[i as int]), byte_codes(before[b - 1]));
            }
        } else {
        }
    }
    assert forall|p: Seq<u8>| after.contains(p) <==> (before.contains(p) || p == path@) by {
        if after.contains(p) {
            let k = choose|k: int| 0 <= k < after.len() && after[k] == p;
            if k < i {
                assert(before[k] == p);
            } else if k > i {
                assert(before[k - 1] == p);
            }
        }
        if before.contains(p) {
            let k = choose|k: int| 0 <= k < before.len() && before[k] == p;
            if k < i {
                assert(after[k] == p);
            } else {
                assert(after[k + 1] == p);
            }
        }
        if p == path@ {
            assert(after[i as int] == p);
        }
    }
}

/// The paths of the devices whose top-level usage is that of an
/// uninterruptible power supply, each once, in ascending order.
pub fn select_ups_device_paths(devices: &Vec<HidDeviceEntry>) -> (paths: Vec<Vec<u8>>)
    ensures
        paths_ascending(paths_view(paths@)),
        forall|p: Seq<u8>| paths_view(paths@).contains(p) <==> is_ups_device_path(devices@, p),
{
    let mut paths: Vec<Vec<u8>> = Vec::new();
    let mut k: usize = 0;
    while k < devices.len()
        invariant
            k <= devices.len(),
            paths_ascending(paths_view(paths@)),
            forall|p: Seq<u8>| paths_view(paths@).contains(p) <==> is_ups_device_path(devices@.take(k as int), p),
        decreases devices.len() - k,
    {
        let device = &devices[k];
        let ghost taken = devices@.take(k as int);
        let ghost next = devices@.take(k + 1);
        assert(next =~= taken.push(devices@[k as int]));
        if is_ups_usage(device.usage_page, device.usage) {
            insert_path(&mut paths, copy_vec(&device.path));
        }
        assert forall|p: Seq<u8>| paths_view(paths@).contains(p) <==> is_ups_device_path(next, p) by {
            if is_ups_device_path(taken, p) {
                let j = choose|j: int| 0 <= j < taken.len() && is_ups_device(taken[j]) && #[trigger] taken[j].path@ == p;
                assert(next[j] == taken[j]);
            }
            if is_ups_device_path(next, p) {
                let j = choose|j: int| 0 <= j < next.len() && is_ups_device(next[j]) && #[trigger] next[j].path@ == p;
                if j < k {
                    assert(taken[j] == next[j]);
                }
            }
            if is_ups_device(devices@[k as int]) && p == devices@[k as int].path@ {
                assert(next[k as int] == devices@[k as int]);
            }
        }
        k = k + 1;
    }
    assert(devices@.take(k as int) =~= devices@);
    paths
}

/// The name that the settings give a device with these vendor and product IDs:
/// that of the first settings entry with both IDs, if any.
pub open spec fn configured_name(settings: Seq<ModNutUpsDriverUsbHidSettings>, vendor_id: u16, product_id: u16) -> Option<Seq<char>>
    decreases settings.len(),
{
    if settings.len() == 0 {
        None
    } else if settings[0].vendor_id == vendor_id && settings[0].product_id == product_id {
        Some(settings[0].name@)
    } else {
        configured_name(settings.drop_first(), vendor_id, product_id)
    }
}

/// The name that the settings give a device with these vendor and product IDs.
fn configured_device_name(settings: &Vec<ModNutUpsDriverUsbHidSettings>, vendor_id: u16, product_id: u16) -> (name: Option<String>)
    ensures
        crate::device::optional_text(name) == configured_name(settings@, vendor_id, product_id),
{
    let ghost all = settings@;
    assert(all.skip(0) =~= all);
    let mut i: usize = 0;
    while i < settings.len()
        invariant
            i <= settings.len(),
            all == settings@,
            configured_name(all, vendor_id, product_id) == configured_name(all.skip(i as int), vendor_id, product_id),
        decreases settings.len() - i,
    {
        assert(all.skip(i as int)[0] == all[i as int]);
        if settings[i].vendor_id == vendor_id && settings[i].product_id == product_id {
            return Some(settings[i].name.clone());
        }
        assert(all.skip(i as int).drop_first() =~= all.skip(i + 1));
        i = i + 1;
    }
    assert(all.skip(i as int).len() == 0);
    None
}

/// Whether entry `a` (a name and a path) sorts strictly before entry `b`: by
/// name, then by path.
pub open spec fn named_path_less(a: (Seq<char>, Seq<u8>), b: (Seq<char>, Seq<u8>)) -> bool {
    lex_less(char_codes(a.0), char_codes(b.0)) || (a.0 == b.0 && path_less(a.1, b.1))
}

/// Whether a list of named paths is in strictly ascending order (so holds no
/// entry twice).
pub open spec fn named_paths_ascending(entries: Seq<(Seq<char>, Seq<u8>)>) -> bool {
    forall|i: int, j: int| 0 <= i < j < entries.len() ==> named_path_less(#[trigger] entries[i], #[trigger] entries[j])
}

/// The views of a list of named paths.
pub open spec fn named_paths_view(entries: Seq<(String, Vec<u8>)>) -> Seq<(Seq<char>, Seq<u8>)> {
    entries.map_values(|e: (String, Vec<u8>)| (e.0@, e.1@))
}

/// Whether `entry` is the configured name and the path of a device of
/// `devices`.
pub open spec fn is_configured_device(
    devices: Seq<HidDeviceEntry>,
    settings: Seq<ModNutUpsDriverUsbHidSettings>,
    entry: (Seq<char>, Seq<u8>),
) -> bool {
    exists|k: int|
        0 <= k < devices.len() && configured_name(settings, #[trigger] devices[k].vendor_id, devices[k].product_id)
            == Some(entry.0) && devices[k].path@ == entry.1
}

proof fn lemma_named_path_order(a: (Seq<char>, Seq<u8>), b: (Seq<char>, Seq<u8>))
    ensures
        !named_path_less(a, a),
        a != b ==> named_path_less(a, b) || named_path_less(b, a),
        !named_path_less(a, b) && !named_path_less(b, a) ==> a == b,
{
    lemma_lex_less_irreflexive(char_codes(a.0));
    lemma_path_order(a.1, b.1);
    if a.0 != b.0 {
        if char_codes(a.0) == char_codes(b.0) {
            lemma_char_codes_injective(a.0, b.0);
        }
        lemma_lex_less_total(char_codes(a.0), char_codes(b.0));
    }
}

proof fn lemma_named_path_transitive(a: (Seq<char>, Seq<u8>), b: (Seq<char>, Seq<u8>), c: (Seq<char>, Seq<u8>))
    requires
        named_path_less(a, b),
        named_path_less(b, c),
    ensures
        named_path_less(a, c),
{
    if lex_less(char_codes(a.0), char_codes(b.0)) && lex_less(char_codes(b.0), char_codes(c.0)) {
        lemma_lex_less_transitive(char_codes(a.0), char_codes(b.0), char_codes(c.0));
    } else if a.0 == b.0 && b.0 == c.0 {
        lemma_lex_less_transitive(byte_codes(a.1), byte_codes(b.1), byte_codes(c.1));
    }
}

/// Whether entry `a` sorts strictly before entry `b`.
fn named_path_before(a: &(String, Vec<u8>), b: &(String, Vec<u8>)) -> (r: bool)
    ensures
        r == named_path_less((a.0@, a.1@), (b.0@, b.1@)),
{
    if text_less(a.0.as_str(), b.0.as_str()) {
        true
    } else if text_less(b.0.as_str(), a.0.as_str()) {
        false
    } else {
        proof {
            if a.0@ != b.0@ {
                if char_codes(a.0@) == char_codes(b.0@) {
                    lemma_char_codes_injective(a.0@, b.0@);
                }
                lemma_lex_less_total(char_codes(a.0@), char_codes(b.0@));
            }
        }
        bytes_less(&a.1, &b.1)
    }
}

/// Inserts `entry` into an ascending list of named paths unless it is there
/// already.
fn insert_named_path(entries: &mut Vec<(String, Vec<u8>)>, entry: (String, Vec<u8>))
    requires
        named_paths_ascending(named_paths_view(old(entries)@)),
    ensures
        named_paths_ascending(named_paths_view(final(entries)@)),
        forall|e: (Seq<char>, Seq<u8>)|
            named_paths_view(final(entries)@).contains(e) <==> (named_paths_view(old(entries)@).contains(e) || e == (
            entry.0@,
            entry.1@,
        )),
{
    let ghost before = named_paths_view(entries@);
    let ghost x = (entry.0@, entry.1@);
    let n = entries.len();
    let mut i: usize = 0;
    let mut done = false;
    while !done && i < n
        invariant
            i <= n,
            n == entries.len(),
            before == named_paths_view(entries@),
            x == (entry.0@, entry.1@),
            forall|j: int| 0 <= j < i ==> named_path_less(#[trigger] before[j], x),
            done ==> i < n && !named_path_less(before[i as int], x),
        decreases n - i, if done { 0int } else { 1int },
    {
        if named_path_before(&entries[i], &entry) {
            i = i + 1;
        } else {
            done = true;
        }
    }
    if done && !named_path_before(&entry, &entries[i]) {
        proof {
            lemma_named_path_order(before[i as int], x);
            assert(before.contains(x));
        }
        return;
    }
    proof {
        if i < n {
            lemma_named_path_order(before[i as int], x);
        }
    }
    entries.insert(i, entry);
    let ghost after = named_paths_view(entries@);
    assert(after =~= before.insert(i as int, x));
    assert forall|a: int, b: int| 0 <= a < b < after.len() implies named_path_less(#[trigger] after[a], #[trigger] after[b]) by {
        if b < i {
        } else if b == i {
        } else if a < i {
            if b - 1 > i {
                lemma_named_path_transitive(x, before[i as int], before[b - 1]);
            }
            lemma_named_path_transitive(after[a], x, after[b]);
        } else if a == i {
            if b - 1 > i {
                lemma_named_path_transitive(x, before[i as int], before[b - 1]);
            }
        } else {
        }
    }
    assert forall|e: (Seq<char>, Seq<u8>)| after.contains(e) <==> (before.contains(e) || e == x) by {
        if after.contains(e) {
            let k = choose|k: int| 0 <= k < after.len() && after[k] == e;
            if k < i {
                assert(before[k] == e);
            } else if k > i {
                assert(before[k - 1] == e);
            }
        }
        if before.contains(e) {
            let k = choose|k: int| 0 <= k < before.len() && before[k] == e;
            if k < i {
                assert(after[k] == e);
            } else {
                assert(after[k + 1] == e);
            }
        }
        if e == x {
            assert(after[i as int] == e);
        }
    }
}

/// The devices that the settings name by vendor and product ID, as their
/// configured names and paths, each once, in ascending order of name and then
/// path.
pub fn select_configured_devices(devices: &Vec<HidDeviceEntry>, settings: &Vec<ModNutUpsDriverUsbHidSettings>) -> (selected: Vec<(String, Vec<u8>)>)
    ensures
        named_paths_ascending(named_paths_view(selected@)),
        forall|e: (Seq<char>, Seq<u8>)| named_paths_view(selected@).contains(e) <==> is_configured_device(devices@, settings@, e),
{
    let mut selected: Vec<(String, Vec<u8>)> = Vec::new();
    let mut k: usize = 0;
    while k < devices.len()
        invariant
            k <= devices.len(),
            named_paths_ascending(named_paths_view(selected@)),
            forall|e: (Seq<char>, Seq<u8>)|
                named_paths_view(selected@).contains(e) <==> is_configured_device(devices@.take(k as int), settings@, e),
        decreases devices.len() - k,
    {
        let device = &devices[k];
        let ghost taken = devices@.take(k as int);
        let ghost next = devices@.take(k + 1);
        assert(next =~= taken.push(devices@[k as int]));
        match configured_device_name(settings, device.vendor_id, device.product_id) {
            Some(name) => insert_named_path(&mut selected, (name, copy_vec(&device.path))),
            None => {},
        }
        assert forall|e: (Seq<char>, Seq<u8>)|
            named_paths_view(selected@).contains(e) <==> is_configured_device(next, settings@, e) by {
            if is_configured_device(taken, settings@, e) {
                let j = choose|j: int|
                    0 <= j < taken.len() && configured_name(settings@, #[trigger] taken[j].vendor_id, taken[j].product_id)
                        == Some(e.0) && taken[j].path@ == e.1;
                assert(next[j] == taken[j]);
            }
            if is_configured_device(next, settings@, e) {
                let j = choose|j: int|
                    0 <= j < next.len() && configured_name(settings@, #[trigger] next[j].vendor_id, next[j].product_id)
                        == Some(e.0) && next[j].path@ == e.1;
                if j < k {
                    assert(taken[j] == next[j]);
                }
            }
            if configured_name(settings@, devices@[k as int].vendor_id, devices@[k as int].product_id) == Some(e.0)
                && devices@[k as int].path@ == e.1 {
                assert(next[k as int] == devices@[k as int]);
            }
        }
        k = k + 1;
    }
    assert(devices@.take(k as int) =~= devices@);
    selected
}

} // verus!
