//! Apple Bluetooth LE advertisements: the `type, length, value` records in
//! manufacturer data (company ID `0x004C`) and the Proximity Pairing record
//! that AirPods and Beats broadcast with their battery levels.
use vstd::prelude::*;

use crate::peripheral::{
    cells_view, BatteryCell, CellView, KnownAccessory, PeripheralInfo, PeripheralType, PeripheralView,
};
use crate::text::{chars_of, has_prefix, owned, starts_with_lit, string_of};

verus! {

pub const APPLE_COMPANY_ID: u16 = 0x004C;
pub const TYPE_PROXIMITY_PAIRING: u8 = 0x07;
pub const TYPE_HANDOFF: u8 = 0x0C;
pub const TYPE_NEARBY_INFO: u8 = 0x10;
/// IDs of readings taken over GATT start with this; private addresses
/// rotate, so such readings are keyed by name.
pub const GATT_ID_PREFIX: &'static str = "ble-gatt-";

/// The records of Apple manufacturer data: each is a type byte, a length byte
/// and that many value bytes. A record that claims more bytes than remain ends
/// the sequence, as does a lone trailing byte.
pub open spec fn records(data: Seq<u8>) -> Seq<(u8, Seq<u8>)>
    decreases data.len(),
{
    if data.len() < 2 || data.len() - 2 < data[1] as int {
        Seq::empty()
    } else {
        let end = 2 + data[1] as int;
        seq![(data[0], data.subrange(2, end))] + records(data.subrange(end, data.len() as int))
    }
}

/// The bytes that a sequence of records is written as.
pub open spec fn encode_records(rs: Seq<(u8, Seq<u8>)>) -> Seq<u8>
    decreases rs.len(),
{
    if rs.len() == 0 {
        Seq::empty()
    } else {
        seq![rs[0].0, rs[0].1.len() as u8] + rs[0].1 + encode_records(rs.drop_first())
    }
}

/// Splits Apple manufacturer data (company ID already stripped) into its
/// `(type, value)` records.
pub fn apple_records(data: &[u8]) -> (r: Vec<(u8, Vec<u8>)>)
    ensures
        r@.len() == records(data@).len(),
        forall|i: int|
            0 <= i < r@.len() ==> (#[trigger] r@[i]).0 == records(data@)[i].0 && r@[i].1@
                == records(data@)[i].1,
{
    let mut r: Vec<(u8, Vec<u8>)> = Vec::new();
    let n = data.len();
    let mut pos: usize = 0;
    assert(data@.subrange(0, n as int) =~= data@);
    assert(r@.map_values(|x: (u8, Vec<u8>)| (x.0, x.1@)) + records(data@) =~= records(data@));
    loop
        invariant
            pos <= n == data@.len(),
            records(data@) == r@.map_values(|x: (u8, Vec<u8>)| (x.0, x.1@)) + records(
                data@.subrange(pos as int, n as int),
            ),
        ensures
            records(data@) == r@.map_values(|x: (u8, Vec<u8>)| (x.0, x.1@)),
        decreases n - pos,
    {
        let ghost rest = data@.subrange(pos as int, n as int);
        if n - pos < 2 {
            assert(records(rest) == Seq::<(u8, Seq<u8>)>::empty());
            assert(r@.map_values(|x: (u8, Vec<u8>)| (x.0, x.1@)) + Seq::<(u8, Seq<u8>)>::empty()
                =~= r@.map_values(|x: (u8, Vec<u8>)| (x.0, x.1@)));
            break;
        }
        let ty = data[pos];
        let len = data[pos + 1] as usize;
        assert(rest[0] == ty && rest[1] == len);
        if n - pos - 2 < len {
            assert(records(rest) == Seq::<(u8, Seq<u8>)>::empty());
            assert(r@.map_values(|x: (u8, Vec<u8>)| (x.0, x.1@)) + Seq::<(u8, Seq<u8>)>::empty()
                =~= r@.map_values(|x: (u8, Vec<u8>)| (x.0, x.1@)));
            break;
        }
        let mut value: Vec<u8> = Vec::new();
        let mut k: usize = 0;
        while k < len
            invariant
                pos + 2 + len <= n == data@.len(),
                k <= len,
                value@ == data@.subrange(pos + 2, pos + 2 + k),
            decreases len - k,
        {
            value.push(data[pos + 2 + k]);
            k = k + 1;
            assert(value@ =~= data@.subrange(pos + 2, pos + 2 + k));
        }
        let ghost old_r = r@;
        r.push((ty, value));
        proof {
            let end = 2 + len as int;
            assert(rest.subrange(2, end) =~= data@.subrange(pos + 2, pos + 2 + len));
            assert(rest.subrange(end, rest.len() as int) =~= data@.subrange(
                pos + 2 + len,
                n as int,
            ));
            assert(r@.map_values(|x: (u8, Vec<u8>)| (x.0, x.1@)) =~= old_r.map_values(
                |x: (u8, Vec<u8>)| (x.0, x.1@),
            ).push((ty, data@.subrange(pos + 2, pos + 2 + len))));
            assert(records(data@) =~= r@.map_values(|x: (u8, Vec<u8>)| (x.0, x.1@)) + records(
                data@.subrange(pos + 2 + len, n as int),
            ));
        }
        pos = pos + 2 + len;
    }
    r
}

/// The records of manufacturer data, written out again, are the data up to
/// the first record that does not fit: splitting never reads past the end and
/// never skips a byte.
pub proof fn lemma_records_tile(data: Seq<u8>)
    ensures
        encode_records(records(data)).len() <= data.len(),
        encode_records(records(data)) == data.subrange(0, encode_records(records(data)).len() as int),
    decreases data.len(),
{
    if data.len() < 2 || data.len() - 2 < data[1] as int {
        assert(encode_records(records(data)) =~= data.subrange(0, 0));
    } else {
        let end = 2 + data[1] as int;
        let tail = data.subrange(end, data.len() as int);
        lemma_records_tile(tail);
        let rs = records(data);
        assert(rs.drop_first() =~= records(tail));
        assert(rs[0].1 =~= data.subrange(2, end));
        let e = encode_records(rs);
        assert(e =~= seq![data[0], data[1]] + data.subrange(2, end) + encode_records(records(tail)));
        assert(e =~= data.subrange(0, e.len() as int));
    }
}

/// Records written out, followed by a tail that holds no whole record, split
/// back into the same records: splitting undoes writing.
pub proof fn lemma_records_of_encoding(rs: Seq<(u8, Seq<u8>)>, tail: Seq<u8>)
    requires
        forall|i: int| 0 <= i < rs.len() ==> (#[trigger] rs[i]).1.len() < 256,
        tail.len() < 2 || tail.len() - 2 < tail[1] as int,
    ensures
        records(encode_records(rs) + tail) == rs,
    decreases rs.len(),
{
    if rs.len() == 0 {
        assert(encode_records(rs) + tail =~= tail);
        assert(records(tail) =~= rs);
    } else {
        let rest = rs.drop_first();
        assert forall|i: int| 0 <= i < rest.len() implies (#[trigger] rest[i]).1.len() < 256 by {
            assert(rest[i] == rs[i + 1]);
        }
        lemma_records_of_encoding(rest, tail);
        let v = rs[0].1;
        let n = v.len();
        assert(rs[0].1.len() < 256);
        let d = encode_records(rs) + tail;
        assert(encode_records(rs) =~= seq![rs[0].0, n as u8] + v + encode_records(rest));
        assert((n as u8) as int == n);
        assert(d[1] == n as u8);
        assert(d.subrange(2, 2 + n as int) =~= v);
        assert(d.subrange(2 + n as int, d.len() as int) =~= encode_records(rest) + tail);
        assert(records(d) =~= seq![(rs[0].0, v)] + rest);
        assert(seq![(rs[0].0, v)] + rest =~= rs);
    }
}

/// A decoded Proximity Pairing record: battery levels in percent (steps of
/// ten) and charging flags of the two pods and the case.
#[derive(Debug, Clone, Copy, PartialEq, Eq, Structural)]
pub struct ProximityPairing {
    /// The product ID, the value `system_profiler` reports as `device_productID`.
    pub model: u16,
    pub left: Option<u8>,
    pub right: Option<u8>,
    pub case: Option<u8>,
    pub left_charging: bool,
    pub right_charging: bool,
    pub case_charging: bool,
}

/// A battery nibble as a level: 0 to 10 are tenths, anything else is
/// "not available".
pub open spec fn pp_level(n: int) -> Option<u8> {
    if 0 <= n <= 10 {
        Some((n * 10) as u8)
    } else {
        None
    }
}

/// Whether bit `k` of `x` is set.
pub open spec fn bit(x: u8, k: nat) -> bool {
    (x as nat / vstd::arithmetic::power2::pow2(k)) % 2 == 1
}

/// What a Proximity Pairing value (`[prefix, model_lo, model_hi, status,
/// pods, charge|case, ...]`) says, if it carries at least one level. Bit 5 of
/// the status byte clear means the high pod nibble and charging bit 1 are the
/// left pod's; set means they are the right pod's.
pub open spec fn proximity_reading(v: Seq<u8>) -> Option<ProximityPairing> {
    if v.len() < 6 {
        None
    } else {
        let flipped = !bit(v[3], 5);
        let high = pp_level(v[4] as int / 16);
        let low = pp_level(v[4] as int % 16);
        let charge = (v[5] / 16) as u8;
        let reading = ProximityPairing {
            model: (v[1] as int + v[2] as int * 256) as u16,
            left: if flipped { high } else { low },
            right: if flipped { low } else { high },
            case: pp_level(v[5] as int % 16),
            left_charging: if flipped { bit(charge, 1) } else { bit(charge, 0) },
            right_charging: if flipped { bit(charge, 0) } else { bit(charge, 1) },
            case_charging: bit(charge, 2),
        };
        if reading.left is Some || reading.right is Some || reading.case is Some {
            Some(reading)
        } else {
            None
        }
    }
}

fn level_of(n: u8) -> (r: Option<u8>)
    requires
        n < 16,
    ensures
        r == pp_level(n as int),
{
    if n <= 10 {
        Some(n * 10)
    } else {
        None
    }
}

proof fn lemma_bits_of(x: u8)
    ensures
        bit(x, 0) == (x & 1 != 0),
        bit(x, 1) == (x & 2 != 0),
        bit(x, 2) == (x & 4 != 0),
        bit(x, 5) == (x & 0x20 != 0),
{
    vstd::arithmetic::power2::lemma2_to64();
    assert((x as nat / 1) % 2 == 1 <==> (x & 1 != 0)) by (bit_vector);
    assert((x as nat / 2) % 2 == 1 <==> (x & 2 != 0)) by (bit_vector);
    assert((x as nat / 4) % 2 == 1 <==> (x & 4 != 0)) by (bit_vector);
    assert((x as nat / 32) % 2 == 1 <==> (x & 0x20 != 0)) by (bit_vector);
}

/// Decodes a Proximity Pairing record value (after the type and length
/// bytes). `None` when the value is shorter than six bytes or carries no
/// level at all.
pub fn parse_proximity_pairing(value: &[u8]) -> (r: Option<ProximityPairing>)
    ensures
        r == proximity_reading(value@),
{
    if value.len() < 6 {
        return None;
    }
    let model_lo = value[1];
    let model_hi = value[2];
    let status = value[3];
    let pods = value[4];
    let charge_case = value[5];
    let flipped = status & 0x20 == 0;
    assert(pods >> 4 == pods / 16 && pods & 0x0F == pods % 16) by (bit_vector);
    assert(charge_case >> 4 == charge_case / 16 && charge_case & 0x0F == charge_case % 16)
        by (bit_vector);
    let high = level_of(pods >> 4);
    let low = level_of(pods & 0x0F);
    let charge = charge_case >> 4;
    proof {
        lemma_bits_of(status);
        lemma_bits_of(charge);
    }
    let (left, right) = if flipped { (high, low) } else { (low, high) };
    let (left_charging, right_charging) = if flipped {
        (charge & 0x02 != 0, charge & 0x01 != 0)
    } else {
        (charge & 0x01 != 0, charge & 0x02 != 0)
    };
    let model = (model_lo as u16) | ((model_hi as u16) << 8);
    assert(model == (model_lo as int + model_hi as int * 256) as u16) by (bit_vector)
        requires
            model == (model_lo as u16) | ((model_hi as u16) << 8),
    ;
    let reading = ProximityPairing {
        model,
        left,
        right,
        case: level_of(charge_case & 0x0F),
        left_charging,
        right_charging,
        case_charging: charge & 0x04 != 0,
    };
    if reading.left.is_some() || reading.right.is_some() || reading.case.is_some() {
        Some(reading)
    } else {
        None
    }
}

/// Toggling bit 5 of the status byte swaps the pods: the left and right
/// levels trade places, and so do their charging flags; the model, the case
/// level and the case flag stay.
pub proof fn lemma_status_bit_swaps_pods(v: Seq<u8>)
    requires
        v.len() >= 6,
    ensures
        ({
            let w = v.update(3, v[3] ^ 0x20);
            match (proximity_reading(v), proximity_reading(w)) {
                (Some(a), Some(b)) => {
                    &&& b.left == a.right
                    &&& b.right == a.left
                    &&& b.left_charging == a.right_charging
                    &&& b.right_charging == a.left_charging
                    &&& b.model == a.model
                    &&& b.case == a.case
                    &&& b.case_charging == a.case_charging
                },
                (None, None) => true,
                _ => false,
            }
        }),
{
    let s = v[3];
    let t = (s ^ 0x20) as u8;
    lemma_bits_of(s);
    lemma_bits_of(t);
    assert((s & 0x20 != 0) != ((s ^ 0x20) & 0x20 != 0)) by (bit_vector);
}

/// Battery nibbles 0 to 10 are tenths: a nibble `n` of at most 10 reads as
/// `10 * n` percent (10 is a full 100 %), anything above 10 as not available.
/// With status bit 5 clear the high pod nibble is the left pod's and the low
/// one the right pod's; with it set, the other way round. The case is the low
/// nibble of the sixth byte.
pub proof fn lemma_pod_levels(v: Seq<u8>)
    requires
        v.len() >= 6,
    ensures
        ({
            let hi = v[4] / 16;
            let lo = v[4] % 16;
            let cs = v[5] % 16;
            let level = |n: u8| if n <= 10 { Some((n * 10) as u8) } else { None::<u8> };
            let any = hi <= 10 || lo <= 10 || cs <= 10;
            &&& any ==> proximity_reading(v) is Some
            &&& !any ==> proximity_reading(v) is None
            &&& any && v[3] & 0x20 == 0 ==> proximity_reading(v).unwrap().left == level(hi)
                && proximity_reading(v).unwrap().right == level(lo)
            &&& any && v[3] & 0x20 != 0 ==> proximity_reading(v).unwrap().left == level(lo)
                && proximity_reading(v).unwrap().right == level(hi)
            &&& any ==> proximity_reading(v).unwrap().case == level(cs)
            &&& any ==> proximity_reading(v).unwrap().model as int == v[1] + 256 * v[2]
        }),
{
    lemma_bits_of(v[3]);
    let b = v[4];
    let c = v[5];
    assert(b / 16 <= 15 && b % 16 <= 15 && c % 16 <= 15);
}

/// The lowercase hexadecimal digit for `d` (0 to 15).
pub open spec fn hex_digit(d: int) -> char {
    if d < 10 {
        (d + 0x30) as char
    } else {
        (d - 10 + 0x61) as char
    }
}

/// `v` as exactly four lowercase hexadecimal digits (`{:04x}`).
pub open spec fn hex4(v: u16) -> Seq<char> {
    seq![
        hex_digit(v as int / 0x1000),
        hex_digit((v as int / 0x100) % 16),
        hex_digit((v as int / 0x10) % 16),
        hex_digit(v as int % 16),
    ]
}

fn hex_char(d: u16) -> (c: char)
    requires
        d < 16,
    ensures
        c == hex_digit(d as int),
{
    if d < 10 {
        ((d + 0x30) as u8) as char
    } else {
        ((d - 10 + 0x61) as u8) as char
    }
}

/// Whether a paired accessory is the Apple product a reading names.
pub open spec fn is_model(k: KnownAccessory, model: u16) -> bool {
    k.vendor_id == APPLE_COMPANY_ID && k.product_id == model
}

/// The paired accessories that a reading of `model` can belong to.
pub open spec fn model_matches(known: Seq<KnownAccessory>, model: u16) -> Seq<KnownAccessory> {
    known.filter(|k: KnownAccessory| is_model(k, model))
}

pub open spec fn cell_view(name: Seq<char>, level: Option<u8>, is_charging: bool) -> Seq<CellView> {
    match level {
        Some(l) => seq![CellView { name, level: l, is_charging }],
        None => Seq::empty(),
    }
}

/// The pod cells of a reading: left, then right, each if its level is known.
pub open spec fn pod_cells(pp: ProximityPairing) -> Seq<CellView> {
    cell_view("L"@, pp.left, pp.left_charging) + cell_view("R"@, pp.right, pp.right_charging)
}

/// The level shown for a reading: the lower of the known pod levels, else the
/// case level.
pub open spec fn headset_level(pp: ProximityPairing) -> Option<u8> {
    match (pp.left, pp.right) {
        (Some(l), Some(r)) => Some(if l <= r { l } else { r }),
        (Some(l), None) => Some(l),
        (None, Some(r)) => Some(r),
        (None, None) => pp.case,
    }
}

/// The peripheral a reading stands for, if the Mac is paired with exactly the
/// product it names and none of those accessories is connected (a connected
/// one is already reported more precisely).
pub open spec fn proximity_info(pp: ProximityPairing, known: Seq<KnownAccessory>, now: u64) -> Option<
    PeripheralView,
> {
    let ms = model_matches(known, pp.model);
    if ms.len() == 0 || (exists|i: int| 0 <= i < ms.len() && (#[trigger] ms[i]).connected) {
        None
    } else {
        match headset_level(pp) {
            None => None,
            Some(level) => {
                let pods = pod_cells(pp);
                let case = cell_view("Case"@, pp.case, pp.case_charging);
                Some(
                    PeripheralView {
                        id: "ble-pp-"@ + hex4(pp.model),
                        name: if ms.len() == 1 {
                            ms[0].name@
                        } else {
                            "AirPods (nearby)"@
                        },
                        peripheral_type: PeripheralType::Headset,
                        battery_level: level,
                        is_charging: (pp.left is Some && pp.left_charging) || (pp.right is Some
                            && pp.right_charging),
                        cells: if pods.len() == 1 && case.len() == 0 {
                            Seq::empty()
                        } else {
                            pods + case
                        },
                        via: Some("Bluetooth LE"@),
                        last_updated: now,
                    },
                )
            },
        }
    }
}

fn push_cell(cells: &mut Vec<BatteryCell>, name: &str, level: Option<u8>, is_charging: bool)
    ensures
        cells_view(final(cells)@) == cells_view(old(cells)@) + cell_view(name@, level, is_charging),
{
    let ghost before = cells@;
    if let Some(l) = level {
        cells.push(BatteryCell { name: owned(name), level: l, is_charging });
        assert(cells_view(cells@) =~= cells_view(before) + cell_view(name@, level, is_charging));
    } else {
        assert(cells_view(cells@) =~= cells_view(before) + cell_view(name@, level, is_charging));
    }
}

/// Builds the peripheral for AirPods or Beats that this Mac is paired with.
/// Advertisements do not identify their owner, so a reading whose model is
/// not paired with this Mac is taken to belong to someone else and dropped.
pub fn proximity_peripheral(pp: &ProximityPairing, known: &[KnownAccessory], now: u64) -> (r: Option<
    PeripheralInfo,
>)
    ensures
        match r {
            Some(info) => proximity_info(*pp, known@, now) == Some(info@),
            None => proximity_info(*pp, known@, now) is None,
        },
{
    let ghost pred = |k: KnownAccessory| is_model(k, pp.model);
    let mut count: usize = 0;
    let mut first: Option<usize> = None;
    let mut any_connected = false;
    let mut i: usize = 0;
    while i < known.len()
        invariant
            i <= known@.len(),
            pred == (|k: KnownAccessory| is_model(k, pp.model)),
            count == known@.take(i as int).filter(pred).len(),
            count <= i,
            count == 0 <==> first is None,
            first matches Some(f) ==> f < i && known@.take(i as int).filter(pred)[0] == known@[f as int],
            any_connected <==> exists|q: int|
                0 <= q < count && (#[trigger] known@.take(i as int).filter(pred)[q]).connected,
        decreases known.len() - i,
    {
        let ghost before = known@.take(i as int).filter(pred);
        proof {
            assert(known@.take(i + 1) =~= known@.take(i as int).push(known@[i as int]));
            known@.take(i as int).lemma_filter_push(known@[i as int], pred);
        }
        let k = &known[i];
        if k.vendor_id == APPLE_COMPANY_ID && k.product_id == pp.model {
            if first.is_none() {
                first = Some(i);
            }
            if k.connected {
                any_connected = true;
            }
            count = count + 1;
            proof {
                let after = known@.take(i + 1).filter(pred);
                assert(after == before.push(known@[i as int]));
                if any_connected {
                    if k.connected {
                        assert(after[count - 1].connected);
                    } else {
                        let q = choose|q: int| 0 <= q < count - 1 && (#[trigger] before[q]).connected;
                        assert(after[q] == before[q]);
                    }
                }
                assert forall|q: int| 0 <= q < count && (#[trigger] after[q]).connected implies any_connected by {
                    if q < count - 1 {
                        assert(after[q] == before[q]);
                    }
                }
            }
        }
        i = i + 1;
    }
    let ghost ms = model_matches(known@, pp.model);
    assert(known@.take(known@.len() as int) =~= known@);
    assert(ms == known@.take(i as int).filter(pred));
    if count == 0 || any_connected {
        return None;
    }
    let name = if count == 1 {
        match first {
            Some(f) => known[f].name.clone(),
            None => owned("AirPods (nearby)"),
        }
    } else {
        owned("AirPods (nearby)")
    };
    let battery_level = match (pp.left, pp.right) {
        (Some(l), Some(r)) => if l <= r { l } else { r },
        (Some(l), None) => l,
        (None, Some(r)) => r,
        (None, None) => match pp.case {
            Some(c) => c,
            None => { return None; },
        },
    };
    let mut pods: Vec<BatteryCell> = Vec::new();
    push_cell(&mut pods, "L", pp.left, pp.left_charging);
    push_cell(&mut pods, "R", pp.right, pp.right_charging);
    assert(cells_view(pods@) =~= pod_cells(*pp));
    let is_charging = (pp.left.is_some() && pp.left_charging) || (pp.right.is_some()
        && pp.right_charging);
    let cells = if pods.len() == 1 && pp.case.is_none() {
        let none: Vec<BatteryCell> = Vec::new();
        assert(cells_view(none@) =~= Seq::<CellView>::empty());
        none
    } else {
        let mut all = pods;
        push_cell(&mut all, "Case", pp.case, pp.case_charging);
        all
    };
    let mut id: Vec<char> = chars_of("ble-pp-");
    let ghost prefix = id@;
    id.push(hex_char(pp.model / 0x1000));
    id.push(hex_char((pp.model / 0x100) % 16));
    id.push(hex_char((pp.model / 0x10) % 16));
    id.push(hex_char(pp.model % 16));
    assert(id@ =~= prefix + hex4(pp.model));
    let info = PeripheralInfo {
        id: string_of(&id),
        name,
        peripheral_type: PeripheralType::Headset,
        battery_level,
        is_charging,
        cells,
        via: Some(owned("Bluetooth LE")),
        last_updated: now,
    };
    Some(info)
}

/// The kind of an iOS device, from the model number its GATT Device
/// Information service reports.
pub open spec fn model_kind(model: Seq<char>) -> Option<PeripheralType> {
    if has_prefix(model, "iPhone"@) || has_prefix(model, "iPod"@) {
        Some(PeripheralType::Phone)
    } else if has_prefix(model, "iPad"@) {
        Some(PeripheralType::Tablet)
    } else if has_prefix(model, "Watch"@) {
        Some(PeripheralType::Watch)
    } else {
        None
    }
}

pub fn model_to_type(model: &str) -> (r: Option<PeripheralType>)
    ensures
        r == model_kind(model@),
{
    let m = chars_of(model);
    if starts_with_lit(&m, "iPhone") || starts_with_lit(&m, "iPod") {
        Some(PeripheralType::Phone)
    } else if starts_with_lit(&m, "iPad") {
        Some(PeripheralType::Tablet)
    } else if starts_with_lit(&m, "Watch") {
        Some(PeripheralType::Watch)
    } else {
        None
    }
}

} // verus!
