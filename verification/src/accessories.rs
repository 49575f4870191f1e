//! Bluetooth accessories as `system_profiler SPBluetoothDataType` reports
//! them, and input devices as the HID registry describes them.
use vstd::prelude::*;

use crate::json::{get, json_get, json_parse, parse_json, Json};
use crate::peripheral::{
    cells_view, views, BatteryCell, CellView, KnownAccessory, PeripheralInfo, PeripheralType,
    PeripheralView,
};
use crate::text::{
    chars_of, contains_lit, eq_lit, has_infix, lowercase, lowercase_of, owned, parse_u16_hex, parse_u8,
    parse_unsigned, replace_char, replace_char_exec, string_of, trim, trim_end_char,
    trim_end_matches_char, trim_start_matches_lit, trim_start_str, trim_ws, uppercase, uppercase_of,
};

verus! {

/// The fields of one device entry of the Bluetooth report that are read; a
/// field is `None` when it is absent or not a string.
pub struct DeviceDetails {
    pub address: Option<String>,
    pub minor_type: Option<String>,
    pub battery_main: Option<String>,
    pub battery_left: Option<String>,
    pub battery_right: Option<String>,
    pub battery_case: Option<String>,
    pub vendor_id: Option<String>,
    pub product_id: Option<String>,
}

/// A device list of the report: an array of objects, each mapping device
/// names to their details (objects in order, names in each object's order).
pub type DeviceList = Vec<Vec<(String, DeviceDetails)>>;

/// The first controller of the report with its two device lists, each `None`
/// when absent or not an array.
pub struct BluetoothController {
    pub connected: Option<DeviceList>,
    pub not_connected: Option<DeviceList>,
}

/// A parsed Bluetooth report; `bluetooth` is `None` when the report has no
/// `SPBluetoothDataType` array or it is empty.
pub struct SystemProfile {
    pub bluetooth: Option<BluetoothController>,
}

/// The device entries of a list, object after object.
pub open spec fn entries(objs: Seq<Vec<(String, DeviceDetails)>>) -> Seq<(String, DeviceDetails)>
    decreases objs.len(),
{
    if objs.len() == 0 {
        Seq::empty()
    } else {
        entries(objs.drop_last()) + objs.last()@
    }
}

/// A battery level as the report writes it (`"80%"`): trailing `%` signs and
/// surrounding whitespace dropped, then a decimal `u8`.
pub open spec fn level_text(s: Seq<char>) -> Option<u8> {
    match parse_unsigned(trim_ws(trim_end_char(s, '%')), 10, 255) {
        Some(v) => Some(v as u8),
        None => None,
    }
}

pub open spec fn opt_level(o: Option<String>) -> Option<u8> {
    match o {
        Some(s) => level_text(s@),
        None => None,
    }
}

/// A vendor or product ID as the report writes it (`"0x004C"`): trimmed, any
/// number of `0x` then of `0X` prefixes dropped, then hexadecimal.
pub open spec fn hex_id(s: Seq<char>) -> Option<u16> {
    match parse_unsigned(trim_start_str(trim_start_str(trim_ws(s), "0x"@), "0X"@), 16, 0xffff) {
        Some(v) => Some(v as u16),
        None => None,
    }
}

/// The kind of a connected accessory: from its minor type when that is one
/// the report uses, else from words in its lowercased name.
pub open spec fn accessory_kind(minor: Seq<char>, name: Seq<char>) -> PeripheralType {
    if minor == "Headset"@ || minor == "Headphones"@ {
        PeripheralType::Headset
    } else if minor == "Mouse"@ {
        PeripheralType::Mouse
    } else if minor == "Keyboard"@ {
        PeripheralType::Keyboard
    } else if minor == "Gamepad"@ {
        PeripheralType::Gamepad
    } else if minor == "Speaker"@ {
        PeripheralType::Other
    } else {
        name_kind(lowercase(name))
    }
}

/// The kind a lowercased device name suggests.
pub open spec fn name_kind(lower: Seq<char>) -> PeripheralType {
    if has_infix(lower, "buds"@) || has_infix(lower, "airpods"@) || has_infix(lower, "headphones"@) || has_infix(
        lower,
        "headset"@,
    ) || has_infix(lower, "earphone"@) {
        PeripheralType::Headset
    } else if has_infix(lower, "mouse"@) {
        PeripheralType::Mouse
    } else if has_infix(lower, "keyboard"@) {
        PeripheralType::Keyboard
    } else if has_infix(lower, "watch"@) {
        PeripheralType::Watch
    } else {
        PeripheralType::Other
    }
}

/// The kind of an accessory from its lowercased name.
pub fn kind_from_lowercase_name(lower: &str) -> (r: PeripheralType)
    ensures
        r == name_kind(lower@),
{
    let lower = chars_of(lower);
    if contains_lit(&lower, "buds") || contains_lit(&lower, "airpods") || contains_lit(&lower, "headphones")
        || contains_lit(&lower, "headset") || contains_lit(&lower, "earphone") {
        PeripheralType::Headset
    } else if contains_lit(&lower, "mouse") {
        PeripheralType::Mouse
    } else if contains_lit(&lower, "keyboard") {
        PeripheralType::Keyboard
    } else if contains_lit(&lower, "watch") {
        PeripheralType::Watch
    } else {
        PeripheralType::Other
    }
}

pub open spec fn level_cell(name: Seq<char>, level: Option<u8>) -> Seq<CellView> {
    match level {
        Some(l) => seq![CellView { name, level: l, is_charging: false }],
        None => Seq::empty(),
    }
}

/// The level shown for a connected accessory: its main battery, else the
/// lower of left and right, else whichever of left, right, case is known.
pub open spec fn shown_level(main: Option<u8>, left: Option<u8>, right: Option<u8>, case: Option<u8>) -> Option<u8> {
    match (main, left, right) {
        (Some(m), _, _) => Some(m),
        (None, Some(l), Some(r)) => Some(if l <= r { l } else { r }),
        (None, Some(l), None) => Some(l),
        (None, None, Some(r)) => Some(r),
        (None, None, None) => case,
    }
}

/// The reading for one connected device entry, if it reports any level.
pub open spec fn connected_reading(name: Seq<char>, d: DeviceDetails, now: u64) -> Option<PeripheralView> {
    let main = opt_level(d.battery_main);
    let left = opt_level(d.battery_left);
    let right = opt_level(d.battery_right);
    let case = opt_level(d.battery_case);
    match shown_level(main, left, right, case) {
        None => None,
        Some(level) => Some(
            PeripheralView {
                id: match d.address {
                    Some(a) => a@,
                    None => name,
                },
                name,
                peripheral_type: accessory_kind(
                    match d.minor_type {
                        Some(m) => m@,
                        None => Seq::empty(),
                    },
                    name,
                ),
                battery_level: if level <= 100 { level } else { 100 },
                is_charging: false,
                cells: level_cell("L"@, left) + level_cell("R"@, right) + level_cell("Case"@, case),
                via: Some("Bluetooth"@),
                last_updated: now,
            },
        ),
    }
}

pub open spec fn connected_readings(es: Seq<(String, DeviceDetails)>, now: u64) -> Seq<PeripheralView>
    decreases es.len(),
{
    if es.len() == 0 {
        Seq::empty()
    } else {
        connected_readings(es.drop_last(), now) + match connected_reading(es.last().0@, es.last().1, now) {
            Some(v) => seq![v],
            None => Seq::empty(),
        }
    }
}

/// The connected accessories of a report that report a battery level.
pub open spec fn profile_connected(p: SystemProfile, now: u64) -> Seq<PeripheralView> {
    match p.bluetooth {
        Some(c) => match c.connected {
            Some(list) => connected_readings(entries(list@), now),
            None => Seq::empty(),
        },
        None => Seq::empty(),
    }
}

/// A paired accessory as a value: name, vendor ID, product ID, connected.
pub open spec fn known_view(k: KnownAccessory) -> (Seq<char>, u16, u16, bool) {
    (k.name@, k.vendor_id, k.product_id, k.connected)
}

pub open spec fn known_views(s: Seq<KnownAccessory>) -> Seq<(Seq<char>, u16, u16, bool)> {
    s.map_values(|k: KnownAccessory| known_view(k))
}

pub open spec fn known_readings(es: Seq<(String, DeviceDetails)>, connected: bool) -> Seq<(Seq<char>, u16, u16, bool)>
    decreases es.len(),
{
    if es.len() == 0 {
        Seq::empty()
    } else {
        let (name, d) = es.last();
        let vendor = match d.vendor_id {
            Some(s) => hex_id(s@),
            None => None,
        };
        let product = match d.product_id {
            Some(s) => hex_id(s@),
            None => None,
        };
        known_readings(es.drop_last(), connected) + match (vendor, product) {
            (Some(v), Some(p)) => seq![(name@, v, p, connected)],
            _ => Seq::empty(),
        }
    }
}

pub open spec fn section_known(list: Option<DeviceList>, connected: bool) -> Seq<(Seq<char>, u16, u16, bool)> {
    match list {
        Some(l) => known_readings(entries(l@), connected),
        None => Seq::empty(),
    }
}

/// Every paired accessory of a report that gives a vendor and a product ID:
/// the connected ones, then the others.
pub open spec fn profile_known(p: SystemProfile) -> Seq<(Seq<char>, u16, u16, bool)> {
    match p.bluetooth {
        Some(c) => section_known(c.connected, true) + section_known(c.not_connected, false),
        None => Seq::empty(),
    }
}

fn parse_level(o: &Option<String>) -> (r: Option<u8>)
    ensures
        r == opt_level(*o),
{
    match o {
        Some(s) => {
            let c = chars_of(s.as_str());
            let stripped = trim_end_matches_char(&c, '%');
            let t = trim(&stripped);
            parse_u8(&t)
        },
        None => None,
    }
}

/// Parses a vendor or product ID written as hexadecimal, with or without a
/// `0x` prefix.
pub fn parse_hex_u16(s: &str) -> (r: Option<u16>)
    ensures
        r == hex_id(s@),
{
    proof {
        reveal_strlit("0x");
        reveal_strlit("0X");
    }
    let c = chars_of(s);
    let t = trim(&c);
    let a = trim_start_matches_lit(&t, "0x");
    let b = trim_start_matches_lit(&a, "0X");
    parse_u16_hex(&b)
}

fn accessory_type(minor: &[char], name: &str) -> (r: PeripheralType)
    ensures
        r == accessory_kind(minor@, name@),
{
    if eq_lit(minor, "Headset") || eq_lit(minor, "Headphones") {
        PeripheralType::Headset
    } else if eq_lit(minor, "Mouse") {
        PeripheralType::Mouse
    } else if eq_lit(minor, "Keyboard") {
        PeripheralType::Keyboard
    } else if eq_lit(minor, "Gamepad") {
        PeripheralType::Gamepad
    } else if eq_lit(minor, "Speaker") {
        PeripheralType::Other
    } else {
        let lower_s = lowercase_of(name);
        kind_from_lowercase_name(lower_s.as_str())
    }
}

fn push_level_cell(cells: &mut Vec<BatteryCell>, name: &str, level: Option<u8>)
    ensures
        cells_view(final(cells)@) == cells_view(old(cells)@) + level_cell(name@, level),
{
    let ghost before = cells@;
    if let Some(l) = level {
        cells.push(BatteryCell { name: owned(name), level: l, is_charging: false });
    }
    assert(cells_view(cells@) =~= cells_view(before) + level_cell(name@, level));
}

fn connected_peripheral(name: &String, d: &DeviceDetails, now: u64) -> (r: Option<PeripheralInfo>)
    ensures
        match r {
            Some(info) => connected_reading(name@, *d, now) == Some(info@),
            None => connected_reading(name@, *d, now) is None,
        },
{
    let main = parse_level(&d.battery_main);
    let left = parse_level(&d.battery_left);
    let right = parse_level(&d.battery_right);
    let case = parse_level(&d.battery_case);
    let mut cells: Vec<BatteryCell> = Vec::new();
    assert(cells_view(cells@) =~= Seq::<CellView>::empty());
    push_level_cell(&mut cells, "L", left);
    push_level_cell(&mut cells, "R", right);
    push_level_cell(&mut cells, "Case", case);
    let level = match (main, left, right) {
        (Some(m), _, _) => m,
        (None, Some(l), Some(r)) => if l <= r { l } else { r },
        (None, Some(l), None) => l,
        (None, None, Some(r)) => r,
        (None, None, None) => match case {
            Some(c) => c,
            None => { return None; },
        },
    };
    let id = match &d.address {
        Some(a) => a.clone(),
        None => name.clone(),
    };
    let minor = match &d.minor_type {
        Some(m) => chars_of(m.as_str()),
        None => Vec::new(),
    };
    let peripheral_type = accessory_type(&minor, name.as_str());
    Some(PeripheralInfo {
        id,
        name: name.clone(),
        peripheral_type,
        battery_level: if level <= 100 { level } else { 100 },
        is_charging: false,
        cells,
        via: Some(owned("Bluetooth")),
        last_updated: now,
    })
}

proof fn lemma_entries_step(objs: Seq<Vec<(String, DeviceDetails)>>, o: int)
    requires
        0 <= o < objs.len(),
    ensures
        entries(objs.take(o + 1)) == entries(objs.take(o)) + objs[o]@,
{
    assert(objs.take(o + 1).drop_last() =~= objs.take(o));
}

/// The connected accessories of a Bluetooth report that report a battery
/// level, in report order.
pub fn parse_connected_accessories(p: &SystemProfile, now: u64) -> (r: Vec<PeripheralInfo>)
    ensures
        views(r@) == profile_connected(*p, now),
{
    let mut results: Vec<PeripheralInfo> = Vec::new();
    let list = match &p.bluetooth {
        Some(c) => match &c.connected {
            Some(l) => l,
            None => {
                assert(views(results@) =~= Seq::<PeripheralView>::empty());
                return results;
            },
        },
        None => {
            assert(views(results@) =~= Seq::<PeripheralView>::empty());
            return results;
        },
    };
    let mut o: usize = 0;
    assert(views(results@) =~= connected_readings(entries(list@.take(0)), now));
    while o < list.len()
        invariant
            o <= list@.len(),
            views(results@) == connected_readings(entries(list@.take(o as int)), now),
        decreases list.len() - o,
    {
        let obj = &list[o];
        let ghost base = entries(list@.take(o as int));
        let mut k: usize = 0;
        assert(base + obj@.take(0) =~= base);
        while k < obj.len()
            invariant
                k <= obj@.len(),
                views(results@) == connected_readings(base + obj@.take(k as int), now),
            decreases obj.len() - k,
        {
            let ghost before = results@;
            let ghost es = base + obj@.take(k + 1);
            assert(es.drop_last() =~= base + obj@.take(k as int));
            assert(es.last() == obj@[k as int]);
            match connected_peripheral(&obj[k].0, &obj[k].1, now) {
                Some(info) => {
                    results.push(info);
                    assert(views(results@) =~= views(before).push(results@[before.len() as int]@));
                },
                None => {},
            }
            assert(views(results@) =~= connected_readings(es, now));
            k = k + 1;
        }
        proof {
            assert(obj@.take(k as int) =~= obj@);
            lemma_entries_step(list@, o as int);
        }
        o = o + 1;
    }
    assert(list@.take(o as int) =~= list@);
    results
}

fn known_of_section(list: &Option<DeviceList>, connected: bool, out: &mut Vec<KnownAccessory>)
    ensures
        known_views(final(out)@) == known_views(old(out)@) + section_known(*list, connected),
{
    let ghost start = known_views(old(out)@);
    let list = match list {
        Some(l) => l,
        None => {
            assert(start + Seq::<(Seq<char>, u16, u16, bool)>::empty() =~= start);
            return;
        },
    };
    let mut o: usize = 0;
    assert(start + known_readings(entries(list@.take(0)), connected) =~= start);
    while o < list.len()
        invariant
            o <= list@.len(),
            start == known_views(old(out)@),
            known_views(out@) == start + known_readings(entries(list@.take(o as int)), connected),
        decreases list.len() - o,
    {
        let obj = &list[o];
        let ghost base = entries(list@.take(o as int));
        let mut k: usize = 0;
        assert(base + obj@.take(0) =~= base);
        while k < obj.len()
            invariant
                k <= obj@.len(),
                start == known_views(old(out)@),
                known_views(out@) == start + known_readings(base + obj@.take(k as int), connected),
            decreases obj.len() - k,
        {
            let ghost before = out@;
            let ghost es = base + obj@.take(k + 1);
            assert(es.drop_last() =~= base + obj@.take(k as int));
            assert(es.last() == obj@[k as int]);
            let name = &obj[k].0;
            let d = &obj[k].1;
            let vendor = match &d.vendor_id {
                Some(s) => parse_hex_u16(s.as_str()),
                None => None,
            };
            let product = match &d.product_id {
                Some(s) => parse_hex_u16(s.as_str()),
                None => None,
            };
            match (vendor, product) {
                (Some(v), Some(pr)) => {
                    out.push(KnownAccessory { name: name.clone(), vendor_id: v, product_id: pr, connected });
                    assert(known_views(out@) =~= known_views(before).push((name@, v, pr, connected)));
                },
                _ => {
                    assert(known_views(out@) =~= known_views(before));
                },
            }
            assert(d.vendor_id == es.last().1.vendor_id && name@ == es.last().0@);
            assert(known_views(out@) =~= start + known_readings(es, connected));
            k = k + 1;
        }
        proof {
            assert(obj@.take(k as int) =~= obj@);
            lemma_entries_step(list@, o as int);
        }
        o = o + 1;
    }
    assert(list@.take(o as int) =~= list@);
}

/// Every paired accessory of a Bluetooth report that gives a vendor and a
/// product ID: the connected ones, then the others.
pub fn parse_known_accessories(p: &SystemProfile) -> (r: Vec<KnownAccessory>)
    ensures
        known_views(r@) == profile_known(*p),
{
    let mut known: Vec<KnownAccessory> = Vec::new();
    assert(known_views(known@) =~= Seq::<(Seq<char>, u16, u16, bool)>::empty());
    match &p.bluetooth {
        Some(c) => {
            known_of_section(&c.connected, true, &mut known);
            known_of_section(&c.not_connected, false, &mut known);
            assert(known_views(known@) =~= profile_known(*p));
        },
        None => {},
    }
    known
}

/// The connected Bluetooth accessories of the system report, if one could be
/// read; none otherwise.
pub fn scan_bluetooth_accessories(profile: Option<SystemProfile>, now: u64) -> (r: Vec<PeripheralInfo>)
    ensures
        views(r@) == match profile {
            Some(p) => profile_connected(p, now),
            None => Seq::empty(),
        },
{
    match profile {
        Some(p) => parse_connected_accessories(&p, now),
        None => {
            let none: Vec<PeripheralInfo> = Vec::new();
            assert(views(none@) =~= Seq::<PeripheralView>::empty());
            none
        },
    }
}

/// The registry properties of a HID service that are read: `Built-In`
/// (false when absent), `Product` (empty when absent), `BatteryPercent` and
/// `BatteryStatusFlags` (0 when absent), `DeviceAddress`.
pub struct HidProperties {
    pub is_builtin: bool,
    pub product: String,
    pub battery_percent: i64,
    pub battery_status: i64,
    pub address: Option<String>,
}

/// The kind of an input device, from words in its product name.
pub open spec fn hid_kind(product: Seq<char>) -> PeripheralType {
    if has_infix(product, "Trackpad"@) {
        PeripheralType::Trackpad
    } else if has_infix(product, "Keyboard"@) {
        PeripheralType::Keyboard
    } else if has_infix(product, "Mouse"@) {
        PeripheralType::Mouse
    } else {
        PeripheralType::Other
    }
}

/// The reading for a HID service: none for built-in or internal devices or
/// ones without a product name. The ID is the device address with `-` made
/// `:` and uppercased (the product name when there is no address); the level
/// is the percentage cut to its low byte, at most 100.
pub open spec fn hid_reading(h: HidProperties, now: u64) -> Option<PeripheralView> {
    let product = h.product@;
    if h.is_builtin || has_infix(product, "Internal"@) || product.len() == 0 {
        None
    } else {
        let level = (h.battery_percent % 256) as u8;
        Some(
            PeripheralView {
                id: match h.address {
                    Some(a) => uppercase(replace_char(a@, '-', ':')),
                    None => product,
                },
                name: product,
                peripheral_type: hid_kind(product),
                battery_level: if level <= 100 { level } else { 100 },
                is_charging: h.battery_status != 0,
                cells: Seq::empty(),
                via: Some("Bluetooth HID"@),
                last_updated: now,
            },
        )
    }
}

/// A listed HID device is a trackpad when its product name says
/// "Trackpad"; otherwise a keyboard when it says "Keyboard"; otherwise a mouse
/// when it says "Mouse"; otherwise another device. Built-in and internal
/// devices, and ones without a name, are not listed.
pub proof fn lemma_hid_kinds(h: HidProperties, now: u64)
    ensures
        ({
            let p = h.product@;
            let listed = !h.is_builtin && !has_infix(p, "Internal"@) && p.len() > 0;
            &&& !listed ==> hid_reading(h, now) is None
            &&& listed ==> hid_reading(h, now) is Some
            &&& listed && has_infix(p, "Trackpad"@) ==> hid_reading(h, now).unwrap().peripheral_type
                == PeripheralType::Trackpad
            &&& listed && !has_infix(p, "Trackpad"@) && has_infix(p, "Keyboard"@) ==> hid_reading(
                h,
                now,
            ).unwrap().peripheral_type == PeripheralType::Keyboard
            &&& listed && !has_infix(p, "Trackpad"@) && !has_infix(p, "Keyboard"@) && has_infix(p, "Mouse"@)
                ==> hid_reading(h, now).unwrap().peripheral_type == PeripheralType::Mouse
            &&& listed && !has_infix(p, "Trackpad"@) && !has_infix(p, "Keyboard"@) && !has_infix(p, "Mouse"@)
                ==> hid_reading(h, now).unwrap().peripheral_type == PeripheralType::Other
            &&& listed ==> hid_reading(h, now).unwrap().name == p
        }),
{
}

/// A connected entry's cells are its left pod's level under "L", then its
/// right pod's under "R", then the case's under "Case", each present exactly
/// when that level parses; none of them is charging. Its level is the main
/// battery's when there is one, else the lower pod's, at most 100.
pub proof fn lemma_connected_cells(name: Seq<char>, d: DeviceDetails, now: u64, l: u8, r: u8, c: u8)
    ensures
        opt_level(d.battery_left) == Some(l) && opt_level(d.battery_right) == Some(r) && opt_level(d.battery_case)
            == Some(c) ==> (connected_reading(name, d, now) matches Some(p) && p.cells == seq![
            CellView { name: "L"@, level: l, is_charging: false },
            CellView { name: "R"@, level: r, is_charging: false },
            CellView { name: "Case"@, level: c, is_charging: false },
        ]),
        opt_level(d.battery_left) == Some(l) && opt_level(d.battery_right) is None && opt_level(d.battery_case)
            is None ==> (connected_reading(name, d, now) matches Some(p) && p.cells == seq![
            CellView { name: "L"@, level: l, is_charging: false },
        ]),
        opt_level(d.battery_left) is None && opt_level(d.battery_right) == Some(r) && opt_level(d.battery_case)
            is None ==> (connected_reading(name, d, now) matches Some(p) && p.cells == seq![
            CellView { name: "R"@, level: r, is_charging: false },
        ]),
        opt_level(d.battery_main) is None && opt_level(d.battery_left) == Some(l) && opt_level(d.battery_right)
            == Some(r) ==> (connected_reading(name, d, now) matches Some(p) && p.battery_level == {
            let m = if l <= r { l } else { r };
            if m <= 100 { m } else { 100 }
        }),
        opt_level(d.battery_main) == Some(l) ==> (connected_reading(name, d, now) matches Some(p)
            && p.battery_level == if l <= 100 { l } else { 100 }),
{
    assert(seq![CellView { name: "L"@, level: l, is_charging: false }] + seq![
        CellView { name: "R"@, level: r, is_charging: false },
    ] + seq![CellView { name: "Case"@, level: c, is_charging: false }] =~= seq![
        CellView { name: "L"@, level: l, is_charging: false },
        CellView { name: "R"@, level: r, is_charging: false },
        CellView { name: "Case"@, level: c, is_charging: false },
    ]);
    assert(seq![CellView { name: "L"@, level: l, is_charging: false }] + Seq::<CellView>::empty()
        + Seq::<CellView>::empty() =~= seq![CellView { name: "L"@, level: l, is_charging: false }]);
    assert(Seq::<CellView>::empty() + seq![CellView { name: "R"@, level: r, is_charging: false }]
        + Seq::<CellView>::empty() =~= seq![CellView { name: "R"@, level: r, is_charging: false }]);
}

/// Turns the properties of one HID service (a Magic Mouse, Keyboard or
/// Trackpad) into its reading.
pub fn hid_peripheral(h: &HidProperties, now: u64) -> (r: Option<PeripheralInfo>)
    ensures
        match r {
            Some(info) => hid_reading(*h, now) == Some(info@),
            None => hid_reading(*h, now) is None,
        },
{
    let product = chars_of(h.product.as_str());
    if h.is_builtin || contains_lit(&product, "Internal") || product.len() == 0 {
        return None;
    }
    let id = match &h.address {
        Some(a) => {
            let c = chars_of(a.as_str());
            let replaced = replace_char_exec(&c, '-', ':');
            let joined = string_of(&replaced);
            uppercase_of(joined.as_str())
        },
        None => h.product.clone(),
    };
    let peripheral_type = if contains_lit(&product, "Trackpad") {
        PeripheralType::Trackpad
    } else if contains_lit(&product, "Keyboard") {
        PeripheralType::Keyboard
    } else if contains_lit(&product, "Mouse") {
        PeripheralType::Mouse
    } else {
        PeripheralType::Other
    };
    let percent = h.battery_percent;
    let low = percent as u8;
    assert(low == (percent % 256) as u8) by (bit_vector)
        requires
            low == percent as u8,
    ;
    let none: Vec<BatteryCell> = Vec::new();
    assert(cells_view(none@) =~= Seq::<CellView>::empty());
    Some(PeripheralInfo {
        id,
        name: h.product.clone(),
        peripheral_type,
        battery_level: if low <= 100 { low } else { 100 },
        is_charging: h.battery_status != 0,
        cells: none,
        via: Some(owned("Bluetooth HID")),
        last_updated: now,
    })
}

/// A string member of a JSON object; `None` when absent or not a string.
pub open spec fn str_member(d: Json, key: Seq<char>) -> Option<String> {
    match get(d, key) {
        Some(Json::Str(s)) => Some(s),
        _ => None,
    }
}

/// The details of one device entry of the report.
pub open spec fn details_of(d: Json) -> DeviceDetails {
    DeviceDetails {
        address: str_member(d, "device_address"@),
        minor_type: str_member(d, "device_minorType"@),
        battery_main: str_member(d, "device_batteryLevelMain"@),
        battery_left: str_member(d, "device_batteryLevelLeft"@),
        battery_right: str_member(d, "device_batteryLevelRight"@),
        battery_case: str_member(d, "device_batteryLevelCase"@),
        vendor_id: str_member(d, "device_vendorID"@),
        product_id: str_member(d, "device_productID"@),
    }
}

/// The devices of one object of a device list: each member's name with its
/// details, in member order.
pub open spec fn object_devices(fields: Seq<(String, Json)>) -> Seq<(String, DeviceDetails)> {
    fields.map_values(|e: (String, Json)| (e.0, details_of(e.1)))
}

/// The objects of a device list, in order; items that are not objects are
/// skipped.
pub open spec fn device_objects(items: Seq<Json>) -> Seq<Seq<(String, DeviceDetails)>>
    decreases items.len(),
{
    if items.len() == 0 {
        Seq::empty()
    } else {
        let rest = device_objects(items.drop_last());
        match items.last() {
            Json::Object(f) => rest.push(object_devices(f@)),
            _ => rest,
        }
    }
}

/// A section of the report as a device list: `None` unless it is an array.
pub open spec fn section_of(s: Option<Json>) -> Option<Seq<Seq<(String, DeviceDetails)>>> {
    match s {
        Some(Json::Array(items)) => Some(device_objects(items@)),
        _ => None,
    }
}

/// A report's content with its lists as sequences: the first controller's
/// connected and not-connected device lists, if there is a controller.
pub type ProfileShape = Option<(Option<Seq<Seq<(String, DeviceDetails)>>>, Option<Seq<Seq<(String, DeviceDetails)>>>)>;

/// What the Bluetooth report says: the first element of its
/// `SPBluetoothDataType` array, if that array is there and not empty, with
/// its `device_connected` and `device_not_connected` sections.
pub open spec fn profile_of(j: Json) -> ProfileShape {
    match get(j, "SPBluetoothDataType"@) {
        Some(Json::Array(a)) => if a@.len() > 0 {
            let root = a@[0];
            Some((section_of(get(root, "device_connected"@)), section_of(get(root, "device_not_connected"@))))
        } else {
            None
        },
        _ => None,
    }
}

pub open spec fn list_shape(l: Option<DeviceList>) -> Option<Seq<Seq<(String, DeviceDetails)>>> {
    match l {
        Some(v) => Some(v@.map_values(|o: Vec<(String, DeviceDetails)>| o@)),
        None => None,
    }
}

/// A parsed report with its lists as sequences.
pub open spec fn profile_shape(p: SystemProfile) -> ProfileShape {
    match p.bluetooth {
        Some(c) => Some((list_shape(c.connected), list_shape(c.not_connected))),
        None => None,
    }
}

fn str_member_of(d: &Json, key: &str) -> (r: Option<String>)
    ensures
        r == str_member(*d, key@),
{
    match json_get(d, key) {
        Some(Json::Str(s)) => Some(s.clone()),
        _ => None,
    }
}

fn details_from(d: &Json) -> (r: DeviceDetails)
    ensures
        r == details_of(*d),
{
    DeviceDetails {
        address: str_member_of(d, "device_address"),
        minor_type: str_member_of(d, "device_minorType"),
        battery_main: str_member_of(d, "device_batteryLevelMain"),
        battery_left: str_member_of(d, "device_batteryLevelLeft"),
        battery_right: str_member_of(d, "device_batteryLevelRight"),
        battery_case: str_member_of(d, "device_batteryLevelCase"),
        vendor_id: str_member_of(d, "device_vendorID"),
        product_id: str_member_of(d, "device_productID"),
    }
}

fn devices_from(fields: &Vec<(String, Json)>) -> (r: Vec<(String, DeviceDetails)>)
    ensures
        r@ == object_devices(fields@),
{
    let mut out: Vec<(String, DeviceDetails)> = Vec::new();
    let mut i: usize = 0;
    while i < fields.len()
        invariant
            i <= fields@.len(),
            out@ == object_devices(fields@.take(i as int)),
        decreases fields.len() - i,
    {
        let e = (fields[i].0.clone(), details_from(&fields[i].1));
        out.push(e);
        assert(object_devices(fields@.take(i + 1)) =~= object_devices(fields@.take(i as int)).push(e));
        i = i + 1;
    }
    assert(fields@.take(i as int) =~= fields@);
    out
}

fn section_from(s: Option<&Json>) -> (r: Option<DeviceList>)
    ensures
        list_shape(r) == section_of(
            match s {
                Some(x) => Some(*x),
                None => None,
            },
        ),
{
    match s {
        Some(Json::Array(items)) => {
            let mut out: DeviceList = Vec::new();
            let mut i: usize = 0;
            assert(items@.take(0) =~= Seq::<Json>::empty());
            assert(out@.map_values(|o: Vec<(String, DeviceDetails)>| o@) =~= device_objects(items@.take(0)));
            while i < items.len()
                invariant
                    i <= items@.len(),
                    out@.map_values(|o: Vec<(String, DeviceDetails)>| o@) == device_objects(items@.take(i as int)),
                decreases items.len() - i,
            {
                assert(items@.take(i + 1).drop_last() =~= items@.take(i as int));
                assert(items@.take(i + 1).last() == items@[i as int]);
                match &items[i] {
                    Json::Object(fields) => {
                        let ghost before = out@;
                        let d = devices_from(fields);
                        out.push(d);
                        assert(out@.map_values(|o: Vec<(String, DeviceDetails)>| o@) =~= before.map_values(
                            |o: Vec<(String, DeviceDetails)>| o@,
                        ).push(object_devices(fields@)));
                    },
                    _ => {},
                }
                i = i + 1;
            }
            assert(items@.take(i as int) =~= items@);
            Some(out)
        },
        _ => None,
    }
}

/// Reads the Bluetooth report out of its JSON document.
pub fn system_profile(j: &Json) -> (p: SystemProfile)
    ensures
        profile_shape(p) == profile_of(*j),
{
    let root = match json_get(j, "SPBluetoothDataType") {
        Some(Json::Array(a)) => if a.len() > 0 {
            Some(&a[0])
        } else {
            None
        },
        _ => None,
    };
    match root {
        Some(r) => SystemProfile {
            bluetooth: Some(
                BluetoothController {
                    connected: section_from(json_get(r, "device_connected")),
                    not_connected: section_from(json_get(r, "device_not_connected")),
                },
            ),
        },
        None => SystemProfile { bluetooth: None },
    }
}

/// Reads the output of `system_profiler SPBluetoothDataType -json`: `None`
/// when it is not JSON, else the report it holds.
pub fn bluetooth_profile(report: &[u8]) -> (p: Option<SystemProfile>)
    ensures
        match json_parse(report@) {
            Some(j) => p matches Some(q) && profile_shape(q) == profile_of(j),
            None => p is None,
        },
{
    match parse_json(report) {
        Some(j) => Some(system_profile(&j)),
        None => None,
    }
}

} // verus!
