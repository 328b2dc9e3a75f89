//! What the exported sheets say: the device ledger (one row per device in
//! use, sixteen columns), the deployment of every rack (a slot grid with
//! each rack's used height), and the slot grid of a single rack.
use vstd::prelude::*;
use crate::db::{Database, id_pos, rack_ids, device_ids, is_active};
use crate::db::devices::{DeviceFilter, SortField, filtered, list_filter_ok, list_devices, sorted_by};
use crate::db::racks::{rack_at, get_rack, list_racks, racks_ordered};
use crate::db::rooms::{room_at, get_room};
use crate::db::device_models::{model_at, get_device_model};
use crate::error::{AppError, is_not_found};
use crate::excel::{format_position, position_text, get_status_label, status_label, device_type_label, type_label};
use crate::models::{Device, Rack, normalize_device_type, normalized_type};
use crate::text::{concat2, int_to_text, int_text, owned};
use crate::validation::{format_date, date_text};

verus! {

/// The devices in use, ordered by name (ties in id order): what every
/// export and the report list.
pub open spec fn active_by_name(db: Database) -> Seq<Device> {
    sorted_by(
        filtered(
            db,
            DeviceFilter { include_deleted: false, only_deleted: false, rack_id: None, room_id: None, pattern: None },
            db.devices@,
        ),
        SortField::Name,
        false,
    )
}

/// The devices in use, ordered by name.
pub fn active_devices(db: &Database) -> (r: Vec<Device>)
    requires
        db.wf(),
    ensures
        r@ == active_by_name(*db),
{
    let r = list_devices(db, None, None);
    proof {
        let flt = choose|flt: DeviceFilter|
            #[trigger] list_filter_ok(flt, None, None) && r@ == sorted_by(filtered(*db, flt, db.devices@), SortField::Name, false);
        assert(flt == DeviceFilter { include_deleted: false, only_deleted: false, rack_id: None, room_id: None, pattern: None });
    }
    r
}

/// The name of the model with id `mid`, empty when there is none.
pub open spec fn model_name_of(db: Database, mid: Option<i32>) -> Seq<char> {
    match mid {
        Some(id) => match model_at(db, id) {
            Some(m) => m.name@,
            None => ""@,
        },
        None => ""@,
    }
}

/// The type label of the model with id `mid`, empty when there is none.
pub open spec fn type_label_of(db: Database, mid: Option<i32>) -> Seq<char> {
    match mid {
        Some(id) => match model_at(db, id) {
            Some(m) => type_label(normalized_type(m.device_type@)),
            None => ""@,
        },
        None => ""@,
    }
}

/// The name of the rack with id `rid`, empty when there is none.
pub open spec fn rack_name_of(db: Database, rid: Option<i32>) -> Seq<char> {
    match rid {
        Some(id) => match rack_at(db, id) {
            Some(r) => r.name@,
            None => ""@,
        },
        None => ""@,
    }
}

/// The name of the room of the rack with id `rid`, empty when there is
/// none.
pub open spec fn room_name_of(db: Database, rid: Option<i32>) -> Seq<char> {
    match rid {
        Some(id) => match rack_at(db, id) {
            Some(r) => match r.room_id {
                Some(room) => match room_at(db, room) {
                    Some(x) => x.name@,
                    None => ""@,
                },
                None => ""@,
            },
            None => ""@,
        },
        None => ""@,
    }
}

/// The text of an optional date (`%Y-%m-%d`, empty for none).
pub open spec fn opt_date_text(d: Option<crate::models::Date>) -> Seq<char> {
    match d {
        Some(x) => date_text(x),
        None => Seq::empty(),
    }
}

/// One row of the device ledger.
pub struct LedgerRow {
    pub name: String,
    pub model: String,
    pub room: String,
    pub rack: String,
    pub position: String,
    pub ip_addresses: String,
    pub serial_no: String,
    pub asset_no: String,
    pub department: String,
    pub owner: String,
    pub function: String,
    pub purchase_date: String,
    pub warranty_expire: String,
    pub status: String,
    pub power_watt: i32,
    pub device_type: String,
}

/// The header of the device ledger.
pub open spec fn ledger_header() -> Seq<Seq<char>> {
    seq![
        "设备名称"@, "型号"@, "机房"@, "机柜"@, "位置(U)"@, "IP地址"@, "序列号"@, "资产编号"@, "使用部门"@, "责任人"@,
        "功能描述"@, "采购日期"@, "质保到期"@, "状态"@, "功率(W)"@, "设备类型"@,
    ]
}

/// The header of the device ledger, as texts.
pub fn ledger_headers() -> (r: Vec<String>)
    ensures
        r@.map_values(|s: String| s@) == ledger_header(),
{
    let mut v: Vec<String> = Vec::new();
    v.push(owned("设备名称"));
    v.push(owned("型号"));
    v.push(owned("机房"));
    v.push(owned("机柜"));
    v.push(owned("位置(U)"));
    v.push(owned("IP地址"));
    v.push(owned("序列号"));
    v.push(owned("资产编号"));
    v.push(owned("使用部门"));
    v.push(owned("责任人"));
    v.push(owned("功能描述"));
    v.push(owned("采购日期"));
    v.push(owned("质保到期"));
    v.push(owned("状态"));
    v.push(owned("功率(W)"));
    v.push(owned("设备类型"));
    assert(v@.map_values(|s: String| s@) =~= ledger_header());
    v
}

/// True when `row` is the ledger row of device `d`.
pub open spec fn is_ledger_row(row: LedgerRow, db: Database, d: Device) -> bool {
    &&& row.name@ == d.name@
    &&& row.model@ == model_name_of(db, d.device_model_id)
    &&& row.room@ == room_name_of(db, d.rack_id)
    &&& row.rack@ == rack_name_of(db, d.rack_id)
    &&& row.position@ == position_text(d.start_u, d.end_u)
    &&& row.ip_addresses@ == d.ip_addresses@
    &&& row.serial_no@ == d.serial_no@
    &&& row.asset_no@ == d.asset_no@
    &&& row.department@ == d.department@
    &&& row.owner@ == d.owner@
    &&& row.function@ == d.function@
    &&& row.purchase_date@ == opt_date_text(d.purchase_date)
    &&& row.warranty_expire@ == opt_date_text(d.warranty_expire)
    &&& row.status@ == status_label(d.status@)
    &&& row.power_watt == d.power_watt
    &&& row.device_type@ == type_label_of(db, d.device_model_id)
}

/// The name of the model with id `mid` (see [`model_name_of`]).
pub fn model_name_for(db: &Database, mid: Option<i32>) -> (r: String)
    requires
        db.wf(),
    ensures
        r@ == model_name_of(*db, mid),
{
    match mid {
        Some(id) => match get_device_model(db, id) {
            Some(m) => m.name,
            None => owned(""),
        },
        None => owned(""),
    }
}

/// The type label of the model with id `mid` (see [`type_label_of`]).
pub fn type_label_for(db: &Database, mid: Option<i32>) -> (r: String)
    requires
        db.wf(),
    ensures
        r@ == type_label_of(*db, mid),
{
    match mid {
        Some(id) => match get_device_model(db, id) {
            Some(m) => owned(device_type_label(normalize_device_type(m.device_type.as_str()))),
            None => owned(""),
        },
        None => owned(""),
    }
}

/// The name of the rack with id `rid` (see [`rack_name_of`]).
pub fn rack_name_for(db: &Database, rid: Option<i32>) -> (r: String)
    requires
        db.wf(),
    ensures
        r@ == rack_name_of(*db, rid),
{
    match rid {
        Some(id) => match get_rack(db, id) {
            Some(x) => x.name,
            None => owned(""),
        },
        None => owned(""),
    }
}

/// The name of the room of the rack with id `rid` (see [`room_name_of`]).
pub fn room_name_for(db: &Database, rid: Option<i32>) -> (r: String)
    requires
        db.wf(),
    ensures
        r@ == room_name_of(*db, rid),
{
    match rid {
        Some(id) => match get_rack(db, id) {
            Some(x) => match x.room_id {
                Some(room) => match get_room(db, room) {
                    Some(y) => y.name,
                    None => owned(""),
                },
                None => owned(""),
            },
            None => owned(""),
        },
        None => owned(""),
    }
}

/// The ledger row of a device (see [`is_ledger_row`]).
pub fn ledger_row(db: &Database, d: &Device) -> (r: LedgerRow)
    requires
        db.wf(),
    ensures
        is_ledger_row(r, *db, *d),
{
    LedgerRow {
        name: d.name.clone(),
        model: model_name_for(db, d.device_model_id),
        room: room_name_for(db, d.rack_id),
        rack: rack_name_for(db, d.rack_id),
        position: format_position(d.start_u, d.end_u),
        ip_addresses: d.ip_addresses.clone(),
        serial_no: d.serial_no.clone(),
        asset_no: d.asset_no.clone(),
        department: d.department.clone(),
        owner: d.owner.clone(),
        function: d.function.clone(),
        purchase_date: format_date(d.purchase_date),
        warranty_expire: format_date(d.warranty_expire),
        status: get_status_label(d.status.as_str()),
        power_watt: d.power_watt,
        device_type: type_label_for(db, d.device_model_id),
    }
}

/// The rows of the device ledger: one per device in use, by name.
pub fn export_devices_data(db: &Database) -> (r: Vec<LedgerRow>)
    requires
        db.wf(),
    ensures
        r@.len() == active_by_name(*db).len(),
        forall|i: int| 0 <= i < r@.len() ==> is_ledger_row(#[trigger] r@[i], *db, active_by_name(*db)[i]),
{
    let devices = active_devices(db);
    let mut out: Vec<LedgerRow> = Vec::new();
    let mut i: usize = 0;
    while i < devices.len()
        invariant
            db.wf(),
            devices@ == active_by_name(*db),
            i <= devices@.len(),
            out@.len() == i,
            forall|k: int| 0 <= k < i ==> is_ledger_row(#[trigger] out@[k], *db, devices@[k]),
        decreases devices.len() - i,
    {
        out.push(ledger_row(db, &devices[i]));
        i = i + 1;
    }
    out
}

// ---------------------------------------------------------------------------
// Slot grids
// ---------------------------------------------------------------------------

/// One text written into a sheet: row, column, text.
pub struct SheetText {
    pub row: u32,
    pub col: u32,
    pub text: String,
}

/// The view of written texts.
pub open spec fn writes_view(w: Seq<SheetText>) -> Seq<(int, int, Seq<char>)> {
    w.map_values(|t: SheetText| (t.row as int, t.col as int, t.text@))
}

/// The devices of `ds` in rack `rid`, in order.
pub open spec fn in_rack(ds: Seq<Device>, rid: i32) -> Seq<Device>
    decreases ds.len(),
{
    if ds.len() == 0 {
        ds
    } else if ds.last().rack_id == Some(rid) {
        in_rack(ds.drop_last(), rid).push(ds.last())
    } else {
        in_rack(ds.drop_last(), rid)
    }
}

/// The texts that slots `from..=to` of a device called `name` write into
/// column `col` of a rack `height` high whose top slot is on row `top`:
/// slot `u` (when within `1..=height`) goes to row `top + height - u`.
pub open spec fn slot_writes(height: int, top: int, col: int, name: Seq<char>, from: int, to: int) -> Seq<(int, int, Seq<char>)>
    decreases to - from + 1,
{
    if from > to {
        Seq::empty()
    } else {
        (if 1 <= from <= height {
            seq![(top + height - from, col, name)]
        } else {
            Seq::empty()
        }) + slot_writes(height, top, col, name, from + 1, to)
    }
}

/// The texts that the devices `ds` write into the grid column `col` of a
/// rack `height` high, one device after another.
pub open spec fn devices_writes(height: int, top: int, col: int, ds: Seq<Device>) -> Seq<(int, int, Seq<char>)>
    decreases ds.len(),
{
    if ds.len() == 0 {
        Seq::empty()
    } else {
        let d = ds.last();
        devices_writes(height, top, col, ds.drop_last()) + match (d.start_u, d.end_u) {
            (Some(s), Some(e)) => slot_writes(height, top, col, d.name@, s as int, e as int),
            _ => Seq::empty(),
        }
    }
}

/// The slot labels `uU` of a grid `height` high whose top slot is on row
/// `top`, from the top slot down.
pub open spec fn label_writes(height: int, top: int, count: int) -> Seq<(int, int, Seq<char>)>
    decreases count,
{
    if count <= 0 {
        Seq::empty()
    } else {
        let u = height - count + 1;
        label_writes(height, top, count - 1) + seq![(top + height - u, 0int, int_text(u) + "U"@)]
    }
}

fn push_slot_writes(out: &mut Vec<SheetText>, height: i32, top: u32, col: u32, name: &String, from: i32, to: i32)
    requires
        top as int + height as int <= u32::MAX,
    ensures
        writes_view(final(out)@) == writes_view(old(out)@) + slot_writes(height as int, top as int, col as int, name@, from as int, to as int),
{
    if from > to {
        assert(writes_view(out@) =~= writes_view(old(out)@) + slot_writes(height as int, top as int, col as int, name@, from as int, to as int));
        return;
    }
    let mut u: i64 = from as i64;
    while u <= to as i64
        invariant
            from <= u <= to as int + 1,
            top as int + height as int <= u32::MAX,
            writes_view(out@) + slot_writes(height as int, top as int, col as int, name@, u as int, to as int) == writes_view(old(out)@)
                + slot_writes(height as int, top as int, col as int, name@, from as int, to as int),
        decreases to as int + 1 - u,
    {
        let ghost before = writes_view(out@);
        if 1 <= u && u <= height as i64 {
            let row = (top as i64 + height as i64 - u) as u32;
            out.push(SheetText { row, col, text: name.clone() });
            assert(writes_view(out@) =~= before + seq![(top + height - u, col as int, name@)]);
        } else {
            assert(writes_view(out@) =~= before);
        }
        assert(slot_writes(height as int, top as int, col as int, name@, u as int, to as int) == (if 1 <= u <= height {
            seq![(top + height - u, col as int, name@)]
        } else {
            Seq::<(int, int, Seq<char>)>::empty()
        }) + slot_writes(height as int, top as int, col as int, name@, u + 1, to as int));
        assert(before + slot_writes(height as int, top as int, col as int, name@, u as int, to as int) =~= writes_view(out@)
            + slot_writes(height as int, top as int, col as int, name@, u + 1, to as int));
        u = u + 1;
    }
    assert(slot_writes(height as int, top as int, col as int, name@, u as int, to as int) =~= Seq::<(int, int, Seq<char>)>::empty());
    assert(writes_view(out@) =~= writes_view(out@) + Seq::<(int, int, Seq<char>)>::empty());
}

fn push_devices_writes(out: &mut Vec<SheetText>, height: i32, top: u32, col: u32, ds: &Vec<Device>, rid: i32)
    requires
        top as int + height as int <= u32::MAX,
    ensures
        writes_view(final(out)@) == writes_view(old(out)@) + devices_writes(height as int, top as int, col as int, in_rack(ds@, rid)),
{
    let mut i: usize = 0;
    let ghost base = writes_view(out@);
    assert(ds@.take(0) =~= Seq::<Device>::empty());
    assert(writes_view(out@) =~= base + devices_writes(height as int, top as int, col as int, in_rack(ds@.take(0), rid)));
    while i < ds.len()
        invariant
            i <= ds@.len(),
            top as int + height as int <= u32::MAX,
            base == writes_view(old(out)@),
            writes_view(out@) == base + devices_writes(height as int, top as int, col as int, in_rack(ds@.take(i as int), rid)),
        decreases ds.len() - i,
    {
        let d = &ds[i];
        let ghost prev = in_rack(ds@.take(i as int), rid);
        assert(ds@.take(i + 1).drop_last() =~= ds@.take(i as int));
        assert(ds@.take(i + 1).last() == ds@[i as int]);
        if d.rack_id == Some(rid) {
            assert(in_rack(ds@.take(i + 1), rid) == prev.push(*d));
            assert(prev.push(*d).drop_last() =~= prev);
            match (d.start_u, d.end_u) {
                (Some(s), Some(e)) => {
                    push_slot_writes(out, height, top, col, &d.name, s, e);
                },
                _ => {},
            }
            assert(writes_view(out@) =~= base + devices_writes(height as int, top as int, col as int, prev.push(*d)));
        }
        i = i + 1;
    }
    assert(ds@.take(ds@.len() as int) =~= ds@);
}

fn push_label_writes(out: &mut Vec<SheetText>, height: i32, top: u32)
    requires
        0 <= height,
        top as int + height as int <= u32::MAX,
    ensures
        writes_view(final(out)@) == writes_view(old(out)@) + label_writes(height as int, top as int, height as int),
{
    let mut k: i32 = 0;
    assert(writes_view(out@) =~= writes_view(old(out)@) + label_writes(height as int, top as int, 0));
    while k < height
        invariant
            0 <= k <= height,
            top as int + height as int <= u32::MAX,
            writes_view(out@) == writes_view(old(out)@) + label_writes(height as int, top as int, k as int),
        decreases height - k,
    {
        let u: i32 = height - k;
        let t = int_to_text(u as i64);
        let text = concat2(t.as_str(), "U");
        let ghost before = writes_view(out@);
        out.push(SheetText { row: (top as i64 + k as i64) as u32, col: 0, text });
        k = k + 1;
        assert(writes_view(out@) =~= before + seq![(top + k - 1, 0int, int_text(u as int) + "U"@)]);
        assert(label_writes(height as int, top as int, k as int) =~= label_writes(height as int, top as int, k - 1)
            + seq![(top + height - (height - k + 1), 0int, int_text(height - k + 1) + "U"@)]);
    }
}

/// The grid of one rack: its slot labels and the names of the devices in
/// use placed in it, slot `u` on row `height - u + 1`.
pub fn export_single_rack(db: &Database, rack_id: i32) -> (r: Result<(Rack, Vec<SheetText>), AppError>)
    requires
        db.wf(),
    ensures
        match rack_at(*db, rack_id) {
            None => r matches Err(e) && is_not_found(e, "机柜"@),
            Some(rack) => r matches Ok((x, w)) && x == rack && writes_view(w@) == (if rack.height_u >= 1 {
                label_writes(rack.height_u as int, 1, rack.height_u as int)
            } else {
                Seq::empty()
            }) + devices_writes(rack.height_u as int, 1, 1, in_rack(active_by_name(*db), rack_id)),
        },
{
    let rack = match get_rack(db, rack_id) {
        Some(r) => r,
        None => return Err(AppError::not_found("机柜")),
    };
    let devices = active_devices(db);
    let mut out: Vec<SheetText> = Vec::new();
    let h = rack.height_u;
    if h >= 1 {
        push_label_writes(&mut out, h, 1);
    } else {
        assert(writes_view(out@) =~= Seq::<(int, int, Seq<char>)>::empty());
    }
    push_devices_writes(&mut out, h, 1, 1, &devices, rack_id);
    Ok((rack, out))
}

// ---------------------------------------------------------------------------
// Deployment of every rack
// ---------------------------------------------------------------------------

/// The slots that device `d` occupies (its range, when well formed).
pub open spec fn span(d: Device) -> int {
    match (d.start_u, d.end_u) {
        (Some(s), Some(e)) => if e >= s {
            e - s + 1
        } else {
            0
        },
        _ => 0,
    }
}

/// The slots that the devices in use of rack `rid` occupy, in all.
pub open spec fn used_slots(ds: Seq<Device>, rid: i32) -> int
    decreases ds.len(),
{
    if ds.len() == 0 {
        0
    } else {
        used_slots(ds.drop_last(), rid) + if is_active(ds.last()) && ds.last().rack_id == Some(rid) {
            span(ds.last())
        } else {
            0
        }
    }
}

/// The height of the tallest rack; 42 without racks.
pub open spec fn tallest(rs: Seq<Rack>) -> int
    decreases rs.len(),
{
    if rs.len() == 0 {
        42
    } else if rs.len() == 1 {
        rs[0].height_u as int
    } else if tallest(rs.drop_last()) >= rs.last().height_u {
        tallest(rs.drop_last())
    } else {
        rs.last().height_u as int
    }
}

/// The grid texts of the racks `rs` (from grid column `first`), one rack
/// after another, each over its own height with its top slot on row 2.
pub open spec fn racks_writes(rs: Seq<Rack>, ds: Seq<Device>, first: int) -> Seq<(int, int, Seq<char>)>
    decreases rs.len(),
{
    if rs.len() == 0 {
        Seq::empty()
    } else {
        racks_writes(rs.drop_last(), ds, first) + devices_writes(
            rs.last().height_u as int,
            2,
            first + rs.len() - 1,
            in_rack(ds, rs.last().id),
        )
    }
}

proof fn lemma_insert_rack_len(s: Seq<Rack>, r: Rack)
    ensures
        crate::db::racks::insert_rack_ordered(s, r).len() == s.len() + 1,
    decreases s.len(),
{
    if s.len() > 0 && !(r.sort_order < s[0].sort_order) {
        lemma_insert_rack_len(s.drop_first(), r);
    }
}

proof fn lemma_racks_ordered_len(s: Seq<Rack>)
    ensures
        racks_ordered(s).len() == s.len(),
    decreases s.len(),
{
    if s.len() > 0 {
        lemma_racks_ordered_len(s.drop_last());
        lemma_insert_rack_len(racks_ordered(s.drop_last()), s.last());
    }
}

/// The deployment sheet: the racks in listing order with the slots used in
/// each, the height of the grid, and the texts of the grid.
pub struct RackPlan {
    pub racks: Vec<Rack>,
    pub used_u: Vec<i64>,
    pub max_u: i32,
    pub cells: Vec<SheetText>,
}

fn used_of(db: &Database, rid: i32) -> (r: i64)
    requires
        db.wf(),
    ensures
        r == used_slots(db.devices@, rid),
{
    proof {
        crate::db::devices::lemma_ids_len_bound(device_ids(db.devices@), db.next_device_id);
    }
    let mut total: i64 = 0;
    let mut i: usize = 0;
    while i < db.devices.len()
        invariant
            db.wf(),
            i <= db.devices@.len(),
            db.devices@.len() <= i32::MAX,
            0 <= total <= i * 2147483648,
            total == used_slots(db.devices@.take(i as int), rid),
        decreases db.devices.len() - i,
    {
        let d = &db.devices[i];
        assert(db.devices@.take(i + 1).drop_last() =~= db.devices@.take(i as int));
        assert(db.devices@.take(i + 1).last() == db.devices@[i as int]);
        assert(crate::db::span_fits(db.devices@[i as int]));
        if d.deleted_at.is_none() && d.rack_id == Some(rid) {
            match (d.start_u, d.end_u) {
                (Some(s), Some(e)) => {
                    if e >= s {
                        total = total + (e as i64 - s as i64 + 1);
                    }
                },
                _ => {},
            }
        }
        i = i + 1;
    }
    assert(db.devices@.take(db.devices@.len() as int) =~= db.devices@);
    total
}

/// The deployment of every rack: racks by sort order, the slots each uses
/// (devices in use only), the grid height (the tallest rack, 42 without
/// racks) with its slot labels from row 2 down, and the device names, rack
/// by rack in columns 1, 2, …, each rack over its own height.
pub fn export_racks(db: &Database) -> (r: RackPlan)
    requires
        db.wf(),
    ensures
        r.racks@ == racks_ordered(db.racks@),
        r.used_u@.len() == r.racks@.len(),
        forall|i: int| 0 <= i < r.racks@.len() ==> #[trigger] r.used_u@[i] == used_slots(db.devices@, r.racks@[i].id),
        r.max_u == tallest(r.racks@),
        writes_view(r.cells@) == (if r.max_u >= 1 {
            label_writes(r.max_u as int, 2, r.max_u as int)
        } else {
            Seq::empty()
        }) + racks_writes(r.racks@, active_by_name(*db), 1),
{
    let racks = list_racks(db);
    let devices = active_devices(db);
    proof {
        crate::db::devices::lemma_ids_len_bound(rack_ids(db.racks@), db.next_rack_id);
        lemma_racks_ordered_len(db.racks@);
    }
    let mut max_u: i32 = 42;
    let mut k: usize = 0;
    while k < racks.len()
        invariant
            k <= racks@.len(),
            max_u == tallest(racks@.take(k as int)),
        decreases racks.len() - k,
    {
        assert(racks@.take(k + 1).drop_last() =~= racks@.take(k as int));
        assert(racks@.take(k + 1).last() == racks@[k as int]);
        if k == 0 || racks[k].height_u > max_u {
            max_u = racks[k].height_u;
        }
        k = k + 1;
    }
    assert(racks@.take(racks@.len() as int) =~= racks@);
    let mut cells: Vec<SheetText> = Vec::new();
    if max_u >= 1 {
        push_label_writes(&mut cells, max_u, 2);
    } else {
        assert(writes_view(cells@) =~= Seq::<(int, int, Seq<char>)>::empty());
    }
    let ghost labels = writes_view(cells@);
    let mut used: Vec<i64> = Vec::new();
    let mut i: usize = 0;
    assert(racks@.take(0) =~= Seq::<Rack>::empty());
    assert(writes_view(cells@) =~= labels + racks_writes(racks@.take(0), devices@, 1));
    while i < racks.len()
        invariant
            db.wf(),
            racks@ == racks_ordered(db.racks@),
            devices@ == active_by_name(*db),
            i <= racks@.len(),
            racks@.len() < u32::MAX,
            used@.len() == i,
            forall|j: int| 0 <= j < i ==> #[trigger] used@[j] == used_slots(db.devices@, racks@[j].id),
            writes_view(cells@) == labels + racks_writes(racks@.take(i as int), devices@, 1),
        decreases racks.len() - i,
    {
        let rack = &racks[i];
        assert(racks@.take(i + 1).drop_last() =~= racks@.take(i as int));
        assert(racks@.take(i + 1).last() == racks@[i as int]);
        push_devices_writes(&mut cells, rack.height_u, 2, (i + 1) as u32, &devices, rack.id);
        used.push(used_of(db, rack.id));
        i = i + 1;
    }
    assert(racks@.take(racks@.len() as int) =~= racks@);
    RackPlan { racks, used_u: used, max_u, cells }
}

} // verus!
