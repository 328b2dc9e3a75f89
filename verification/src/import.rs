//! Importing devices from the rows of a sheet: which rows are read, what
//! each row says, how a row finds an existing device (serial number, then
//! asset number, then name in its rack), and what it creates or updates.
//! The import runs on a copy of the tables and is kept only when every row
//! goes through.
use vstd::prelude::*;
use crate::db::is_utc_stamp;
use crate::db::{Database, same_tables};
use crate::db::devices::{device_inserted, device_updated, first_active_serial, first_active_asset,
    first_named_in_rack, find_device_by_serial, find_device_by_asset, find_device_by_name_in_rack,
    insert_device_at, update_device_at};
use crate::db::racks::{rack_found_or_created, rack_room_linked, find_or_create_rack_at, link_rack_room_at};
use crate::db::rooms::{room_found_or_created, find_or_create_room_at};
use crate::db::device_models::{first_model_named, model_inserted, find_model_id_by_name, get_device_model,
    insert_device_model, model_at};
use crate::error::{AppError, ErrorCode, is_not_found};
use crate::excel::{Cell, field, field_text, cell_at, cell_int, cell_to_int, parsed_u_range, parse_u_range,
    status_of_label, status_from_label, type_label, device_type_label, none_if_empty};
use crate::models::{Device, DeviceCreate, DeviceUpdate, DeviceModel, DeviceModelCreate, ImportOptions,
    ImportResult, ImportProgress, Patch, normalized_type, normalize_device_type, type_key, is_known_other};
use crate::text::{concat2, concat3, int_text, int_to_text, owned, str_equal, trimmed};

verus! {

/// At most this many data rows are read from a sheet.
pub const MAX_IMPORT_ROWS: u32 = 5000;

/// Progress is reported after every this many rows.
pub const PROGRESS_EVERY: u32 = 50;

// ---------------------------------------------------------------------------
// Reading the sheet
// ---------------------------------------------------------------------------

/// Indices, below `n`, of the rows after the header whose name cell is not
/// blank.
pub open spec fn named_rows(rows: Seq<Seq<Cell>>, n: int) -> Seq<int>
    decreases n,
{
    if n <= 1 || n > rows.len() {
        Seq::empty()
    } else {
        let prev = named_rows(rows, n - 1);
        if field(rows[n - 1], 0).len() > 0 {
            prev.push(n - 1)
        } else {
            prev
        }
    }
}

/// The indices of the rows an import reads: the first named rows, at most
/// the row limit of them.
pub open spec fn read_rows(rows: Seq<Seq<Cell>>) -> Seq<int> {
    let named = named_rows(rows, rows.len() as int);
    if named.len() > MAX_IMPORT_ROWS {
        named.take(MAX_IMPORT_ROWS as int)
    } else {
        named
    }
}

/// The message for the rows beyond the limit, from 1-based row `row_no` on.
pub open spec fn limit_message(row_no: int) -> Seq<char> {
    "超过5000行上限，第"@ + int_text(row_no) + "行及之后被跳过"@
}

/// The errors an import reports: the row limit message when named rows go
/// beyond it.
pub open spec fn read_errors(rows: Seq<Seq<Cell>>) -> Seq<Seq<char>> {
    let named = named_rows(rows, rows.len() as int);
    if named.len() > MAX_IMPORT_ROWS {
        seq![limit_message(named[MAX_IMPORT_ROWS as int] + 1)]
    } else {
        Seq::empty()
    }
}

/// What one sheet row says.
pub struct ImportRow {
    /// The row's number in the sheet (1-based, the header is row 1).
    pub row_no: usize,
    pub name: String,
    pub model_name: String,
    pub room_name: String,
    pub rack_name: String,
    pub start_u: Option<i32>,
    pub end_u: Option<i32>,
    pub ip_addresses: String,
    pub serial_no: String,
    pub asset_no: String,
    pub department: String,
    pub owner: String,
    pub function: String,
    pub purchase_date: String,
    pub warranty_expire: String,
    pub status: String,
    pub power_watt: i32,
    /// The type column, when not blank.
    pub type_raw: Option<String>,
}

/// True when `p` is what row `row` (sheet row `row_no`) says: the sixteen
/// columns name, model, room, rack, position, IP list, serial number, asset
/// number, department, owner, function, purchase date, warranty end,
/// status, power, type, each trimmed (power read as an integer, 0 when it
/// is none).
pub open spec fn is_row_of(p: ImportRow, row: Seq<Cell>, row_no: int) -> bool {
    &&& p.row_no == row_no
    &&& p.name@ == field(row, 0)
    &&& p.model_name@ == field(row, 1)
    &&& p.room_name@ == field(row, 2)
    &&& p.rack_name@ == field(row, 3)
    &&& match parsed_u_range(field(row, 4)) {
        Some((s, e)) => p.start_u == Some(s) && p.end_u == Some(e),
        None => p.start_u is None && p.end_u is None,
    }
    &&& p.ip_addresses@ == field(row, 5)
    &&& p.serial_no@ == field(row, 6)
    &&& p.asset_no@ == field(row, 7)
    &&& p.department@ == field(row, 8)
    &&& p.owner@ == field(row, 9)
    &&& p.function@ == field(row, 10)
    &&& p.purchase_date@ == field(row, 11)
    &&& p.warranty_expire@ == field(row, 12)
    &&& p.status@ == status_of_label(field(row, 13))
    &&& p.power_watt == (match cell_int(cell_at(row, 14)) {
        Some(v) => v,
        None => 0i32,
    })
    &&& if field(row, 15).len() > 0 {
        p.type_raw matches Some(t) && t@ == field(row, 15)
    } else {
        p.type_raw is None
    }
}

/// Reads what sheet row `row` (number `row_no`) says.
pub fn parse_row(row: &Vec<Cell>, row_no: usize) -> (p: ImportRow)
    ensures
        is_row_of(p, row@, row_no as int),
{
    let u = field_text(row, 4);
    let range = parse_u_range(u.as_str());
    let status_label = field_text(row, 13);
    let power = if 14 < row.len() {
        match cell_to_int(&row[14]) {
            Some(v) => v,
            None => 0,
        }
    } else {
        0
    };
    let t = field_text(row, 15);
    let type_raw = if t.as_str().unicode_len() > 0 {
        Some(t)
    } else {
        None
    };
    ImportRow {
        row_no,
        name: field_text(row, 0),
        model_name: field_text(row, 1),
        room_name: field_text(row, 2),
        rack_name: field_text(row, 3),
        start_u: match range {
            Some((s, _)) => Some(s),
            None => None,
        },
        end_u: match range {
            Some((_, e)) => Some(e),
            None => None,
        },
        ip_addresses: field_text(row, 5),
        serial_no: field_text(row, 6),
        asset_no: field_text(row, 7),
        department: field_text(row, 8),
        owner: field_text(row, 9),
        function: field_text(row, 10),
        purchase_date: field_text(row, 11),
        warranty_expire: field_text(row, 12),
        status: status_from_label(status_label.as_str()),
        power_watt: power,
        type_raw,
    }
}

// ---------------------------------------------------------------------------
// What one row does
// ---------------------------------------------------------------------------

/// The device type the row asks for, when it names one.
pub open spec fn row_type(p: ImportRow) -> Option<Seq<char>> {
    match p.type_raw {
        Some(t) => Some(normalized_type(t@)),
        None => None,
    }
}

/// The warning for a type text that is unknown (and not a way of writing
/// "other").
pub open spec fn type_warning(p: ImportRow) -> Seq<Seq<char>> {
    match p.type_raw {
        Some(t) => if normalized_type(t@) == "other"@ && !(type_key(t@) == "other"@ || type_key(t@) == "其他"@) {
            seq!["第"@ + int_text(p.row_no as int) + "行 未知设备类型「"@ + t@ + "」已按 其他 处理"@]
        } else {
            Seq::empty()
        },
        None => Seq::empty(),
    }
}

/// The warning for a model that exists with another type than the row's.
pub open spec fn model_warning(name: Seq<char>, kept: Seq<char>) -> Seq<char> {
    "型号「"@ + name + "」已存在，类型保持为 "@ + type_label(kept)
}

/// The device found for a row: by serial number, else by asset number,
/// else by name in the row's rack (devices in use only).
pub open spec fn existing_device(a: Database, p: ImportRow, rid: Option<i32>) -> Option<Device> {
    if first_active_serial(a.devices@, p.serial_no@, -1i32) is Some {
        first_active_serial(a.devices@, p.serial_no@, -1i32)
    } else if first_active_asset(a.devices@, p.asset_no@, -1i32) is Some {
        first_active_asset(a.devices@, p.asset_no@, -1i32)
    } else {
        first_named_in_rack(a.devices@, p.name@, rid)
    }
}

/// Overwriting is asked for by exactly `overwrite`.
pub open spec fn overwrites(opts: ImportOptions) -> bool {
    opts.update_mode@ == "overwrite"@
}

/// The rack step went through: no rack for a blank rack name, else the
/// rack found or created by name.
pub open spec fn rack_step(a: Database, a1: Database, p: ImportRow, now: String, rid: Option<i32>) -> bool {
    if p.rack_name@.len() == 0 {
        a1 == a && rid is None
    } else {
        rid is Some && rack_found_or_created(a, a1, p.rack_name@, Ok(rid->0))
    }
}

/// The room step went through: nothing, or the room found or created by
/// name and the rack linked to it.
pub open spec fn room_step(a1: Database, am: Database, a2: Database, room_id: i32, p: ImportRow, opts: ImportOptions, now: String, rid: Option<i32>) -> bool {
    link_step(a1, am, a2, room_id, rid, p.room_name@, opts.link_room, now)
}

/// Linking a rack to a room by name went through (see [`room_step`]).
pub open spec fn link_step(a1: Database, am: Database, a2: Database, room_id: i32, rid: Option<i32>, room: Seq<char>, link: bool, now: String) -> bool {
    if link && rid is Some && room.len() > 0 {
        room_found_or_created(a1, am, room, Ok(room_id)) && rack_room_linked(am, a2, rid->0, room_id, now, Ok(()))
    } else {
        a2 == a1
    }
}

/// Linking a rack to a room by name failed with `e`, leaving the tables
/// at `am`.
pub open spec fn link_fails(a1: Database, am: Database, room_id: i32, rid: Option<i32>, room: Seq<char>, link: bool, now: String, e: AppError) -> bool {
    &&& link && rid is Some && room.len() > 0
    &&& {
        ||| room_found_or_created(a1, am, room, Err(e))
        ||| (room_found_or_created(a1, am, room, Ok(room_id)) && rack_room_linked(am, am, rid->0, room_id, now, Err(e)))
    }
}

/// The model a row creates: its name, the row's type (or the default).
pub open spec fn is_model_request(data: DeviceModelCreate, p: ImportRow) -> bool {
    &&& data.name@ == p.model_name@
    &&& data.manufacturer is None
    &&& match row_type(p) {
        Some(t) => data.device_type matches Some(x) && x@ == t,
        None => data.device_type is None,
    }
    &&& data.height_u is None
    &&& data.power_watt is None
}

/// The model step went through: no model for a blank model name; the
/// model of that name when there is one (with a warning when the row asks
/// for another type; the model keeps its type); else a new model.
pub open spec fn model_step(a2: Database, a3: Database, p: ImportRow, data: DeviceModelCreate, m: DeviceModel, mid: Option<i32>, created: bool, w: Seq<Seq<char>>) -> bool {
    if p.model_name@.len() == 0 {
        a3 == a2 && mid is None && !created && w.len() == 0
    } else {
        match first_model_named(a2.device_models@, p.model_name@) {
            Some(x) => a3 == a2 && mid == Some(x.id) && !created && w == (if row_type(p) is Some && normalized_type(
                x.device_type@,
            ) != row_type(p)->0 {
                seq![model_warning(p.model_name@, normalized_type(x.device_type@))]
            } else {
                Seq::empty()
            }),
            None => created && w.len() == 0 && is_model_request(data, p) && model_inserted(a2, a3, data, Ok(m))
                && mid == Some(m.id),
        }
    }
}

/// The three-state update an overwrite makes: the name and status always,
/// model, rack and range when given, text columns when not blank, power
/// when above zero; the height is left alone.
pub open spec fn is_overwrite_update(u: DeviceUpdate, p: ImportRow, mid: Option<i32>, rid: Option<i32>) -> bool {
    &&& u.name matches Patch::Assign(v) && v@ == p.name@
    &&& (match mid {
        Some(v) => u.device_model_id == Patch::Assign(v),
        None => u.device_model_id is Unset,
    })
    &&& (match rid {
        Some(v) => u.rack_id == Patch::Assign(v),
        None => u.rack_id is Unset,
    })
    &&& (match p.start_u {
        Some(v) => u.start_u == Patch::Assign(v),
        None => u.start_u is Unset,
    })
    &&& (match p.end_u {
        Some(v) => u.end_u == Patch::Assign(v),
        None => u.end_u is Unset,
    })
    &&& text_patch(u.ip_addresses, p.ip_addresses@)
    &&& text_patch(u.serial_no, p.serial_no@)
    &&& text_patch(u.asset_no, p.asset_no@)
    &&& text_patch(u.department, p.department@)
    &&& text_patch(u.owner, p.owner@)
    &&& text_patch(u.function, p.function@)
    &&& text_patch(u.purchase_date, p.purchase_date@)
    &&& text_patch(u.warranty_expire, p.warranty_expire@)
    &&& u.status matches Patch::Assign(v) && v@ == p.status@
    &&& (if p.power_watt > 0 {
        u.power_watt == Patch::Assign(p.power_watt)
    } else {
        u.power_watt is Unset
    })
    &&& u.height_u is Unset
}

/// A text patch: unset for the empty text, else the text.
pub open spec fn text_patch(q: Patch<String>, s: Seq<char>) -> bool {
    if s.len() == 0 {
        q is Unset
    } else {
        q matches Patch::Assign(v) && v@ == s
    }
}

/// An optional text: none for the empty text, else the text.
pub open spec fn text_opt(q: Option<String>, s: Seq<char>) -> bool {
    if s.len() == 0 {
        q is None
    } else {
        q matches Some(v) && v@ == s
    }
}

/// The device a new row creates: empty texts are left out, the status is
/// given, power only when above zero, the height derived.
pub open spec fn is_import_create(c: DeviceCreate, p: ImportRow, mid: Option<i32>, rid: Option<i32>) -> bool {
    &&& c.name@ == p.name@
    &&& c.device_model_id == mid
    &&& c.rack_id == rid
    &&& c.start_u == p.start_u
    &&& c.end_u == p.end_u
    &&& text_opt(c.ip_addresses, p.ip_addresses@)
    &&& text_opt(c.serial_no, p.serial_no@)
    &&& text_opt(c.asset_no, p.asset_no@)
    &&& text_opt(c.department, p.department@)
    &&& text_opt(c.owner, p.owner@)
    &&& text_opt(c.function, p.function@)
    &&& text_opt(c.purchase_date, p.purchase_date@)
    &&& text_opt(c.warranty_expire, p.warranty_expire@)
    &&& c.status matches Some(v) && v@ == p.status@
    &&& c.power_watt == (if p.power_watt > 0 {
        Some(p.power_watt)
    } else {
        None
    })
    &&& c.height_u is None
}

/// Counts and warnings of an import so far.
pub struct Tally {
    pub imported: nat,
    pub updated: nat,
    pub skipped: nat,
    pub models_created: nat,
    pub warnings: Seq<Seq<char>>,
}

/// One row went through, from `a` to `b`, with the witnesses of each step.
pub open spec fn row_trace(
    a: Database,
    a1: Database,
    am: Database,
    a2: Database,
    a3: Database,
    b: Database,
    rid: Option<i32>,
    room_id: i32,
    mdata: DeviceModelCreate,
    m: DeviceModel,
    mid: Option<i32>,
    created: bool,
    w: Seq<Seq<char>>,
    u: DeviceUpdate,
    fu: Result<Option<Device>, AppError>,
    c: DeviceCreate,
    fi: Result<Device, AppError>,
    p: ImportRow,
    opts: ImportOptions,
    now: String,
    t0: Tally,
    t1: Tally,
) -> bool {
    let w0 = t0.warnings + type_warning(p);
    &&& rack_step(a, a1, p, now, rid)
    &&& match existing_device(a1, p, rid) {
        Some(d) => if overwrites(opts) {
            &&& room_step(a1, am, a2, room_id, p, opts, now, rid)
            &&& model_step(a2, a3, p, mdata, m, mid, created, w)
            &&& is_overwrite_update(u, p, mid, rid)
            &&& fu is Ok && device_updated(a3, b, d.id, u, now, fu)
            &&& t1 == Tally {
                updated: t0.updated + 1,
                models_created: t0.models_created + if created { 1nat } else { 0nat },
                warnings: w0 + w,
                ..t0
            }
        } else {
            b == a1 && t1 == Tally { skipped: t0.skipped + 1, warnings: w0, ..t0 }
        },
        None => {
            &&& room_step(a1, am, a2, room_id, p, opts, now, rid)
            &&& model_step(a2, a3, p, mdata, m, mid, created, w)
            &&& is_import_create(c, p, mid, rid)
            &&& fi is Ok && device_inserted(a3, b, c, now, fi)
            &&& t1 == Tally {
                imported: t0.imported + 1,
                models_created: t0.models_created + if created { 1nat } else { 0nat },
                warnings: w0 + w,
                ..t0
            }
        },
    }
}

/// Row `p` takes the tables from `a` to `b` and the tally from `t0` to
/// `t1`.
#[verifier::opaque]
pub open spec fn row_ok(a: Database, b: Database, p: ImportRow, opts: ImportOptions, now: String, t0: Tally, t1: Tally) -> bool {
    exists|a1: Database, am: Database, a2: Database, a3: Database, rid: Option<i32>, room_id: i32,
        mdata: DeviceModelCreate, m: DeviceModel, mid: Option<i32>, created: bool, w: Seq<Seq<char>>,
        u: DeviceUpdate, fu: Result<Option<Device>, AppError>, c: DeviceCreate, fi: Result<Device, AppError>|
        #[trigger] row_trace(a, a1, am, a2, a3, b, rid, room_id, mdata, m, mid, created, w, u, fu, c, fi, p, opts, now, t0, t1)
}

/// The tally after the type warning of row `p`.
pub open spec fn warned(t0: Tally, p: ImportRow) -> Tally {
    Tally { warnings: t0.warnings + type_warning(p), ..t0 }
}

/// One row failed with `e`, with the witnesses of the steps before; the
/// tables are left at `z` (what the steps before made) and the tally at
/// `t1` (the type warning, and the model step's count and warnings when
/// the device step failed).
pub open spec fn row_fail_trace(
    a: Database,
    a1: Database,
    am: Database,
    a2: Database,
    a3: Database,
    rid: Option<i32>,
    room_id: i32,
    mdata: DeviceModelCreate,
    m: DeviceModel,
    mid: Option<i32>,
    created: bool,
    w: Seq<Seq<char>>,
    u: DeviceUpdate,
    c: DeviceCreate,
    p: ImportRow,
    opts: ImportOptions,
    now: String,
    e: AppError,
    z: Database,
    t0: Tally,
    t1: Tally,
) -> bool {
    ||| (p.rack_name@.len() > 0 && rack_found_or_created(a, a, p.rack_name@, Err(e)) && z == a && t1 == warned(t0, p))
    ||| {
        &&& rack_step(a, a1, p, now, rid)
        &&& (existing_device(a1, p, rid) is None || overwrites(opts))
        &&& {
            ||| (link_fails(a1, am, room_id, rid, p.room_name@, opts.link_room, now, e) && z == am && t1 == warned(t0, p))
            ||| {
                &&& room_step(a1, am, a2, room_id, p, opts, now, rid)
                &&& {
                    ||| (p.model_name@.len() > 0 && first_model_named(a2.device_models@, p.model_name@) is None
                        && is_model_request(mdata, p) && model_inserted(a2, a2, mdata, Err(e)) && z == a2 && t1
                        == warned(t0, p))
                    ||| {
                        &&& model_step(a2, a3, p, mdata, m, mid, created, w)
                        &&& z == a3
                        &&& t1 == Tally {
                            models_created: t0.models_created + if created { 1nat } else { 0nat },
                            warnings: t0.warnings + type_warning(p) + w,
                            ..t0
                        }
                        &&& match existing_device(a1, p, rid) {
                            Some(d) => is_overwrite_update(u, p, mid, rid) && device_updated(a3, a3, d.id, u, now, Err(e)),
                            None => is_import_create(c, p, mid, rid) && device_inserted(a3, a3, c, now, Err(e)),
                        }
                    }
                }
            }
        }
    }
}

/// Row `p` fails on `a` with `e`, leaving the tables at `z` and taking the
/// tally from `t0` to `t1`.
#[verifier::opaque]
pub open spec fn row_fails(a: Database, z: Database, p: ImportRow, opts: ImportOptions, now: String, e: AppError, t0: Tally, t1: Tally) -> bool {
    exists|a1: Database, am: Database, a2: Database, a3: Database, rid: Option<i32>, room_id: i32,
        mdata: DeviceModelCreate, m: DeviceModel, mid: Option<i32>, created: bool, w: Seq<Seq<char>>,
        u: DeviceUpdate, c: DeviceCreate|
        #[trigger] row_fail_trace(a, a1, am, a2, a3, rid, room_id, mdata, m, mid, created, w, u, c, p, opts, now, e, z, t0, t1)
}

/// An error of a row that a rule rejected (a validation or a conflict):
/// the import skips such a row and goes on.
pub open spec fn rejects(e: AppError) -> bool {
    e.code == ErrorCode::ValidationError || e.code == ErrorCode::Conflict
}

/// The warning for a row skipped because of `e`.
pub open spec fn skip_warning(row_no: int, e: AppError) -> Seq<char> {
    "第"@ + int_text(row_no) + "行 已跳过："@ + e.message@
}

/// Row `p` was rejected on `a` and skipped: it failed with an error that
/// a rule gave, the tables stay where its earlier steps left them (`b`),
/// and the tally counts it as skipped with a warning.
pub open spec fn row_skipped(a: Database, b: Database, p: ImportRow, opts: ImportOptions, now: String, t0: Tally, t2: Tally) -> bool {
    exists|e: AppError, t1: Tally|
        #![trigger row_fails(a, b, p, opts, now, e, t0, t1)]
        row_fails(a, b, p, opts, now, e, t0, t1) && rejects(e) && t2 == Tally {
            skipped: t1.skipped + 1,
            warnings: t1.warnings.push(skip_warning(p.row_no as int, e)),
            ..t1
        }
}

/// Row `p` takes the tables from `a` to `b` and the tally from `t0` to
/// `t1`: it went through, or it was rejected and skipped.
pub open spec fn row_step(a: Database, b: Database, p: ImportRow, opts: ImportOptions, now: String, t0: Tally, t1: Tally) -> bool {
    row_ok(a, b, p, opts, now, t0, t1) || row_skipped(a, b, p, opts, now, t0, t1)
}

proof fn lemma_rows_ok_step(a: Database, m: Database, b: Database, ps: Seq<ImportRow>, opts: ImportOptions, now: String, tm: Tally, t: Tally)
    requires
        ps.len() > 0,
        rows_ok(a, m, ps.drop_last(), opts, now, tm),
        row_step(m, b, ps.last(), opts, now, tm, t),
    ensures
        rows_ok(a, b, ps, opts, now, t),
{
    let (dbs, ts) = choose|dbs: Seq<Database>, ts: Seq<Tally>|
        #[trigger] rows_chain(a, dbs, ts, ps.drop_last(), opts, now) && dbs.last() == m && ts.last() == tm;
    let dbs2 = dbs.push(b);
    let ts2 = ts.push(t);
    assert forall|k: int| 0 <= k < ps.len() implies #[trigger] row_step(dbs2[k], dbs2[k + 1], ps[k], opts, now, ts2[k], ts2[k + 1]) by {
        if k < ps.len() - 1 {
            assert(ps.drop_last()[k] == ps[k]);
            assert(row_step(dbs[k], dbs[k + 1], ps.drop_last()[k], opts, now, ts[k], ts[k + 1]));
        }
    }
    assert(rows_chain(a, dbs2, ts2, ps, opts, now));
}

proof fn lemma_rows_ok_start(a: Database, w: Database, opts: ImportOptions, now: String)
    requires
        same_tables(w, a),
    ensures
        rows_ok(a, w, Seq::empty(), opts, now, empty_tally()),
{
    let dbs = seq![w];
    let ts = seq![empty_tally()];
    assert(rows_chain(a, dbs, ts, Seq::empty(), opts, now));
}

/// The tally before any row.
pub open spec fn empty_tally() -> Tally {
    Tally { imported: 0, updated: 0, skipped: 0, models_created: 0, warnings: Seq::empty() }
}

/// The tables `dbs` and tallies `ts` step through the rows `ps`: from the
/// tables of `a` and nothing counted, each row takes the tables and the
/// tally to the next ones.
pub open spec fn rows_chain(a: Database, dbs: Seq<Database>, ts: Seq<Tally>, ps: Seq<ImportRow>, opts: ImportOptions, now: String) -> bool {
    &&& dbs.len() == ps.len() + 1
    &&& ts.len() == ps.len() + 1
    &&& same_tables(dbs[0], a)
    &&& ts[0] == empty_tally()
    &&& forall|k: int| 0 <= k < ps.len() ==> #[trigger] row_step(dbs[k], dbs[k + 1], ps[k], opts, now, ts[k], ts[k + 1])
}

/// The rows `ps`, one after another, take the tables from `a` to `b` and
/// the tally from nothing to `t`.
pub open spec fn rows_ok(a: Database, b: Database, ps: Seq<ImportRow>, opts: ImportOptions, now: String, t: Tally) -> bool {
    exists|dbs: Seq<Database>, ts: Seq<Tally>|
        #[trigger] rows_chain(a, dbs, ts, ps, opts, now) && dbs.last() == b && ts.last() == t
}

// ---------------------------------------------------------------------------
// The steps, computed
// ---------------------------------------------------------------------------

/// Links rack `rack_id` to the room called `room_name` (found or created)
/// when `link` holds and there are a rack and a room name; the rack keeps a
/// room it already has.
fn link_rack_room(db: &mut Database, rack_id: Option<i32>, room_name: &str, link: bool, now: &String) -> (r: Result<(), AppError>)
    requires
        old(db).wf(),
    ensures
        final(db).wf(),
        r is Ok ==> exists|am: Database, room_id: i32| #[trigger] link_step(*old(db), am, *final(db), room_id, rack_id, room_name@, link, *now),
        r matches Err(e) ==> exists|am: Database, room_id: i32| #[trigger] link_fails(*old(db), am, room_id, rack_id, room_name@, link, *now, e) && *final(db) == am,
{
    if !link {
        assert(link_step(*old(db), *db, *db, 0, rack_id, room_name@, link, *now));
        return Ok(());
    }
    let rid = match rack_id {
        None => {
            assert(link_step(*old(db), *db, *db, 0, rack_id, room_name@, link, *now));
            return Ok(());
        },
        Some(x) => x,
    };
    if room_name.unicode_len() == 0 {
        assert(link_step(*old(db), *db, *db, 0, rack_id, room_name@, link, *now));
        return Ok(());
    }
    let room_id = match find_or_create_room_at(db, room_name, now) {
        Ok(id) => id,
        Err(e) => {
            assert(link_fails(*old(db), *db, 0, rack_id, room_name@, link, *now, e));
            return Err(e);
        },
    };
    let ghost am = *db;
    match link_rack_room_at(db, rid, room_id, now) {
        Ok(()) => {
            assert(link_step(*old(db), am, *db, room_id, rack_id, room_name@, link, *now));
            Ok(())
        },
        Err(e) => {
            assert(link_fails(*old(db), am, room_id, rack_id, room_name@, link, *now, e));
            Err(e)
        },
    }
}

/// The warnings of a step, as texts.
pub open spec fn texts(w: Seq<String>) -> Seq<Seq<char>> {
    w.map_values(|s: String| s@)
}

/// Finds the model a row names or creates it with the row's type (see
/// [`model_step`]). Returns the model id, whether a model was created, and
/// the warnings.
fn resolve_model(db: &mut Database, p: &ImportRow, device_type: Option<&str>) -> (r: Result<(Option<i32>, bool, Vec<String>), AppError>)
    requires
        old(db).wf(),
        match device_type {
            Some(t) => row_type(*p) == Some(t@),
            None => row_type(*p) is None,
        },
    ensures
        final(db).wf(),
        r matches Ok((mid, created, w)) ==> exists|data: DeviceModelCreate, m: DeviceModel|
            #[trigger] model_step(*old(db), *final(db), *p, data, m, mid, created, texts(w@)),
        r matches Err(e) ==> p.model_name@.len() > 0 && first_model_named(old(db).device_models@, p.model_name@) is None
            && exists|data: DeviceModelCreate| #[trigger] is_model_request(data, *p) && model_inserted(*old(db), *old(db), data, Err(e))
            && *final(db) == *old(db),
{
    let ghost any_data = DeviceModelCreate { name: p.model_name, manufacturer: None, device_type: None, height_u: None, power_watt: None };
    let ghost any_model = DeviceModel { id: 0, name: p.model_name, manufacturer: p.model_name, device_type: p.model_name, height_u: 0, power_watt: 0, created_at: None, updated_at: None };
    let mut w: Vec<String> = Vec::new();
    if p.model_name.as_str().unicode_len() == 0 {
        assert(texts(w@) =~= Seq::<Seq<char>>::empty());
        assert(model_step(*old(db), *db, *p, any_data, any_model, None, false, texts(w@)));
        let r = (None, false, w);
        assert(model_step(*old(db), *db, *p, any_data, any_model, r.0, r.1, texts(r.2@)));
        return Ok(r);
    }
    match find_model_id_by_name(db, p.model_name.as_str()) {
        Some(id) => {
            let ghost x = first_model_named(db.device_models@, p.model_name@)->0;
            proof {
                lemma_first_model_named_in(db.device_models@, p.model_name@);
                let k = choose|k: int|
                    0 <= k < db.device_models@.len() && db.device_models@[k] == x && (
                    #[trigger] db.device_models@[k]).name@ == p.model_name@;
                assert(crate::db::model_ids(db.device_models@)[k] == x.id);
                crate::db::lemma_id_pos_found(crate::db::model_ids(db.device_models@), id, k);
            }
            let existing = get_device_model(db, id).unwrap();
            assert(existing == x);
            if let Some(dt) = device_type {
                let kept = normalize_device_type(existing.device_type.as_str());
                if !str_equal(kept, dt) {
                    let a = concat3("型号「", p.model_name.as_str(), "」已存在，类型保持为 ");
                    let msg = concat2(a.as_str(), device_type_label(kept));
                    w.push(msg);
                }
            }
            assert(texts(w@) =~= (if row_type(*p) is Some && normalized_type(x.device_type@) != row_type(*p)->0 {
                seq![model_warning(p.model_name@, normalized_type(x.device_type@))]
            } else {
                Seq::<Seq<char>>::empty()
            }));
            let res = (Some(id), false, w);
            assert(model_step(*old(db), *db, *p, any_data, any_model, res.0, res.1, texts(res.2@)));
            Ok(res)
        },
        None => {
            let data = DeviceModelCreate {
                name: p.model_name.clone(),
                manufacturer: None,
                device_type: match device_type {
                    Some(t) => Some(owned(t)),
                    None => None,
                },
                height_u: None,
                power_watt: None,
            };
            assert(is_model_request(data, *p));
            match insert_device_model(db, &data) {
                Ok(m) => {
                    assert(texts(w@) =~= Seq::<Seq<char>>::empty());
                    let res = (Some(m.id), true, w);
                    assert(model_step(*old(db), *db, *p, data, m, res.0, res.1, texts(res.2@)));
                    Ok(res)
                },
                Err(e) => Err(e),
            }
        },
    }
}

proof fn lemma_first_model_named_in(ms: Seq<DeviceModel>, name: Seq<char>)
    requires
        first_model_named(ms, name) is Some,
    ensures
        exists|k: int| 0 <= k < ms.len() && ms[k] == first_model_named(ms, name)->0 && (#[trigger] ms[k]).name@ == name,
    decreases ms.len(),
{
    if ms[0].name@ != name {
        lemma_first_model_named_in(ms.drop_first(), name);
        let k = choose|k: int|
            0 <= k < ms.drop_first().len() && ms.drop_first()[k] == first_model_named(ms.drop_first(), name)->0
                && (#[trigger] ms.drop_first()[k]).name@ == name;
        assert(ms[k + 1] == ms.drop_first()[k]);
    }
}

/// The update an overwriting row makes (see [`is_overwrite_update`]).
fn build_overwrite_update(p: &ImportRow, mid: Option<i32>, rid: Option<i32>) -> (u: DeviceUpdate)
    ensures
        is_overwrite_update(u, *p, mid, rid),
{
    DeviceUpdate {
        name: Patch::Assign(p.name.clone()),
        device_model_id: match mid {
            Some(v) => Patch::Assign(v),
            None => Patch::Unset,
        },
        rack_id: match rid {
            Some(v) => Patch::Assign(v),
            None => Patch::Unset,
        },
        start_u: match p.start_u {
            Some(v) => Patch::Assign(v),
            None => Patch::Unset,
        },
        end_u: match p.end_u {
            Some(v) => Patch::Assign(v),
            None => Patch::Unset,
        },
        ip_addresses: patch_str(&p.ip_addresses),
        serial_no: patch_str(&p.serial_no),
        asset_no: patch_str(&p.asset_no),
        department: patch_str(&p.department),
        owner: patch_str(&p.owner),
        function: patch_str(&p.function),
        purchase_date: patch_str(&p.purchase_date),
        warranty_expire: patch_str(&p.warranty_expire),
        status: Patch::Assign(p.status.clone()),
        power_watt: if p.power_watt > 0 {
            Patch::Assign(p.power_watt)
        } else {
            Patch::Unset
        },
        height_u: Patch::Unset,
    }
}

/// Unset for the empty text, else the text.
pub fn patch_str(s: &String) -> (r: Patch<String>)
    ensures
        text_patch(r, s@),
{
    if s.as_str().unicode_len() == 0 {
        Patch::Unset
    } else {
        Patch::Assign(s.clone())
    }
}

/// The device a new row creates (see [`is_import_create`]).
fn build_create(p: &ImportRow, mid: Option<i32>, rid: Option<i32>) -> (c: DeviceCreate)
    ensures
        is_import_create(c, *p, mid, rid),
{
    DeviceCreate {
        name: p.name.clone(),
        device_model_id: mid,
        rack_id: rid,
        start_u: p.start_u,
        end_u: p.end_u,
        ip_addresses: none_if_empty(p.ip_addresses.clone()),
        serial_no: none_if_empty(p.serial_no.clone()),
        asset_no: none_if_empty(p.asset_no.clone()),
        department: none_if_empty(p.department.clone()),
        owner: none_if_empty(p.owner.clone()),
        function: none_if_empty(p.function.clone()),
        purchase_date: none_if_empty(p.purchase_date.clone()),
        warranty_expire: none_if_empty(p.warranty_expire.clone()),
        status: Some(p.status.clone()),
        power_watt: if p.power_watt > 0 {
            Some(p.power_watt)
        } else {
            None
        },
        height_u: None,
    }
}

// ---------------------------------------------------------------------------
// One row, computed
// ---------------------------------------------------------------------------

/// Running counts of an import.
pub struct Counters {
    pub imported: u32,
    pub updated: u32,
    pub skipped: u32,
    pub models_created: u32,
    pub warnings: Vec<String>,
}

/// The tally that counts stand for.
pub open spec fn tally_of(c: Counters) -> Tally {
    Tally {
        imported: c.imported as nat,
        updated: c.updated as nat,
        skipped: c.skipped as nat,
        models_created: c.models_created as nat,
        warnings: texts(c.warnings@),
    }
}

/// Counts far enough from the `u32` limit for one more row.
pub open spec fn counters_room(c: Counters) -> bool {
    &&& c.imported < 4_000_000_000
    &&& c.updated < 4_000_000_000
    &&& c.skipped < 4_000_000_000
    &&& c.models_created < 4_000_000_000
}

proof fn lemma_texts_push(w: Seq<String>, s: String)
    ensures
        texts(w.push(s)) == texts(w) + seq![s@],
{
    assert(texts(w.push(s)) =~= texts(w) + seq![s@]);
}

proof fn lemma_texts_append(w: Seq<String>, v: Seq<String>)
    ensures
        texts(w + v) == texts(w) + texts(v),
{
    assert(texts(w + v) =~= texts(w) + texts(v));
}

/// Imports one row into `db` at `now` (see [`row_ok`] and [`row_fails`]).
fn import_row(db: &mut Database, p: &ImportRow, opts: &ImportOptions, now: &String, c: &mut Counters) -> (r: Result<(), AppError>)
    requires
        old(db).wf(),
        counters_room(*old(c)),
        p.row_no < 0x4000_0000_0000_0000,
    ensures
        final(db).wf(),
        r is Ok ==> row_ok(*old(db), *final(db), *p, *opts, *now, tally_of(*old(c)), tally_of(*final(c))),
        r is Ok ==> final(c).imported + final(c).updated + final(c).skipped == old(c).imported + old(c).updated
            + old(c).skipped + 1,
        r matches Err(e) ==> row_fails(*old(db), *final(db), *p, *opts, *now, e, tally_of(*old(c)), tally_of(*final(c))),
        r is Err ==> final(c).imported + final(c).updated + final(c).skipped == old(c).imported + old(c).updated
            + old(c).skipped,
        final(c).models_created <= old(c).models_created + 1,
{
    proof {
        reveal(row_ok);
        reveal(row_fails);
    }
    let ghost a = *db;
    let ghost t0 = tally_of(*c);
    let ghost md = DeviceModelCreate { name: p.name, manufacturer: None, device_type: None, height_u: None, power_watt: None };
    let ghost mm = DeviceModel { id: 0, name: p.name, manufacturer: p.name, device_type: p.name, height_u: 0, power_watt: 0, created_at: None, updated_at: None };
    let ghost du = DeviceUpdate {
        name: Patch::Unset, device_model_id: Patch::Unset, rack_id: Patch::Unset, start_u: Patch::Unset, end_u: Patch::Unset,
        ip_addresses: Patch::Unset, serial_no: Patch::Unset, asset_no: Patch::Unset, department: Patch::Unset,
        owner: Patch::Unset, function: Patch::Unset, purchase_date: Patch::Unset, warranty_expire: Patch::Unset,
        status: Patch::Unset, power_watt: Patch::Unset, height_u: Patch::Unset,
    };
    let ghost dc = DeviceCreate {
        name: p.name, device_model_id: None, rack_id: None, start_u: None, end_u: None, ip_addresses: None,
        serial_no: None, asset_no: None, department: None, owner: None, function: None, purchase_date: None,
        warranty_expire: None, status: None, power_watt: None, height_u: None,
    };
    let device_type: Option<&str> = match &p.type_raw {
        Some(t) => Some(normalize_device_type(t.as_str())),
        None => None,
    };
    let ghost w_before = c.warnings@;
    if let Some(raw) = &p.type_raw {
        let dt = normalize_device_type(raw.as_str());
        if str_equal(dt, "other") && !is_known_other(raw.as_str()) {
            let n = int_to_text(p.row_no as i64);
            let x = concat3("第", n.as_str(), "行 未知设备类型「");
            let msg = concat3(x.as_str(), raw.as_str(), "」已按 其他 处理");
            c.warnings.push(msg);
            proof {
                lemma_texts_push(w_before, msg);
            }
        }
    }
    assert(texts(c.warnings@) == t0.warnings + type_warning(*p)) by {
        if !(texts(c.warnings@) =~= t0.warnings + type_warning(*p)) {
            assert(c.warnings@ == w_before);
        }
    }
    let ghost w0 = texts(c.warnings@);
    assert(tally_of(*c) == warned(t0, *p));
    let rid: Option<i32> = if p.rack_name.as_str().unicode_len() > 0 {
        match find_or_create_rack_at(db, p.rack_name.as_str(), now) {
            Ok(id) => Some(id),
            Err(e) => {
                assert(row_fail_trace(a, a, a, a, a, None, 0, md, mm, None, false, Seq::empty(), du, dc, *p, *opts, *now, e, *db, t0, tally_of(*c)));
                return Err(e);
            },
        }
    } else {
        None
    };
    let ghost a1 = *db;
    assert(rack_step(a, a1, *p, *now, rid));
    let mut existing = find_device_by_serial(db, p.serial_no.as_str());
    if existing.is_none() {
        existing = find_device_by_asset(db, p.asset_no.as_str());
    }
    if existing.is_none() {
        existing = find_device_by_name_in_rack(db, p.name.as_str(), rid);
    }
    assert(existing == existing_device(a1, *p, rid));
    let overwrite = str_equal(opts.update_mode.as_str(), "overwrite");
    if existing.is_some() && !overwrite {
        c.skipped = c.skipped + 1;
        assert(tally_of(*c) == Tally { skipped: t0.skipped + 1, warnings: w0, ..t0 });
        assert(row_trace(a, a1, a1, a1, a1, *db, rid, 0, md, mm, None, false, Seq::empty(), du, Ok(None), dc, vstd::pervasive::arbitrary(), *p, *opts, *now, t0, tally_of(*c)));
        return Ok(());
    }
    match link_rack_room(db, rid, p.room_name.as_str(), opts.link_room, now) {
        Ok(()) => {},
        Err(e) => {
            let ghost (am, room_id) = choose|am: Database, room_id: i32| #[trigger] link_fails(a1, am, room_id, rid, p.room_name@, opts.link_room, *now, e) && *db == am;
            assert(row_fail_trace(a, a1, am, a1, a1, rid, room_id, md, mm, None, false, Seq::empty(), du, dc, *p, *opts, *now, e, *db, t0, tally_of(*c)));
            return Err(e);
        },
    }
    let ghost (am, room_id) = choose|am: Database, room_id: i32| #[trigger] link_step(a1, am, *db, room_id, rid, p.room_name@, opts.link_room, *now);
    let ghost a2 = *db;
    assert(room_step(a1, am, a2, room_id, *p, *opts, *now, rid));
    let (mid, created, w) = match resolve_model(db, p, device_type) {
        Ok(x) => x,
        Err(e) => {
            let ghost data = choose|data: DeviceModelCreate| #[trigger] is_model_request(data, *p) && model_inserted(a2, a2, data, Err(e));
            assert(row_fail_trace(a, a1, am, a2, a2, rid, room_id, data, mm, None, false, Seq::empty(), du, dc, *p, *opts, *now, e, *db, t0, tally_of(*c)));
            return Err(e);
        },
    };
    let ghost (mdata, m) = choose|data: DeviceModelCreate, m: DeviceModel| #[trigger] model_step(a2, *db, *p, data, m, mid, created, texts(w@));
    let ghost a3 = *db;
    if created {
        c.models_created = c.models_created + 1;
    }
    let ghost wb = c.warnings@;
    let mut w2 = w;
    c.warnings.append(&mut w2);
    proof {
        lemma_texts_append(wb, w@);
    }
    let ghost t1 = tally_of(*c);
    assert(t1 == Tally {
        models_created: t0.models_created + if created { 1nat } else { 0nat },
        warnings: w0 + texts(w@),
        ..t0
    });
    match existing {
        Some(d) => {
            let u = build_overwrite_update(p, mid, rid);
            let fu = update_device_at(db, d.id, &u, now);
            match fu {
                Ok(_) => {},
                Err(e) => {
                    assert(row_fail_trace(a, a1, am, a2, a3, rid, room_id, mdata, m, mid, created, texts(w@), u, dc, *p, *opts, *now, e, *db, t0, tally_of(*c)));
                    return Err(e);
                },
            }
            c.updated = c.updated + 1;
            assert(tally_of(*c) == Tally { updated: t1.updated + 1, ..t1 });
            assert(row_trace(a, a1, am, a2, a3, *db, rid, room_id, mdata, m, mid, created, texts(w@), u, fu, dc, vstd::pervasive::arbitrary(), *p, *opts, *now, t0, tally_of(*c)));
            Ok(())
        },
        None => {
            let cr = build_create(p, mid, rid);
            let fi = insert_device_at(db, &cr, now);
            match fi {
                Ok(_) => {},
                Err(e) => {
                    assert(row_fail_trace(a, a1, am, a2, a3, rid, room_id, mdata, m, mid, created, texts(w@), du, cr, *p, *opts, *now, e, *db, t0, tally_of(*c)));
                    return Err(e);
                },
            }
            c.imported = c.imported + 1;
            assert(tally_of(*c) == Tally { imported: t1.imported + 1, ..t1 });
            assert(row_trace(a, a1, am, a2, a3, *db, rid, room_id, mdata, m, mid, created, texts(w@), du, Ok(None), cr, fi, *p, *opts, *now, t0, tally_of(*c)));
            Ok(())
        },
    }
}

// ---------------------------------------------------------------------------
// The whole sheet
// ---------------------------------------------------------------------------

/// The rows of a sheet as sequences of cells.
pub open spec fn sheet(rows: Seq<Vec<Cell>>) -> Seq<Seq<Cell>> {
    rows.map_values(|r: Vec<Cell>| r@)
}

/// `ps` is what the rows an import reads say, in order.
#[verifier::opaque]
pub open spec fn rows_read(rows: Seq<Seq<Cell>>, ps: Seq<ImportRow>) -> bool {
    &&& ps.len() == read_rows(rows).len()
    &&& forall|k: int|
        0 <= k < ps.len() ==> is_row_of(#[trigger] ps[k], rows[read_rows(rows)[k]], read_rows(rows)[k] + 1)
}

proof fn lemma_named_prefix(rows: Seq<Seq<Cell>>, n: int, m: int)
    requires
        0 <= n <= m <= rows.len(),
    ensures
        named_rows(rows, n).len() <= named_rows(rows, m).len(),
        named_rows(rows, m).take(named_rows(rows, n).len() as int) == named_rows(rows, n),
    decreases m - n,
{
    if n < m {
        lemma_named_prefix(rows, n, m - 1);
        let a = named_rows(rows, n);
        let b = named_rows(rows, m - 1);
        let c = named_rows(rows, m);
        if m > 1 {
            assert(c.take(a.len() as int) =~= b.take(a.len() as int));
        }
    } else {
        assert(named_rows(rows, m).take(named_rows(rows, m).len() as int) =~= named_rows(rows, m));
    }
}

proof fn lemma_named_below(rows: Seq<Seq<Cell>>, n: int)
    requires
        0 <= n <= rows.len(),
    ensures
        forall|k: int| 0 <= k < named_rows(rows, n).len() ==> 1 <= #[trigger] named_rows(rows, n)[k] < n,
    decreases n,
{
    if n > 1 {
        lemma_named_below(rows, n - 1);
        let prev = named_rows(rows, n - 1);
        assert forall|k: int| 0 <= k < named_rows(rows, n).len() implies 1 <= #[trigger] named_rows(rows, n)[k] < n by {
            if k < prev.len() {
                assert(named_rows(rows, n)[k] == prev[k]);
            }
        }
    }
}

/// Reads the rows of a sheet (the first is the header): the rows whose
/// name is not blank, up to the row limit, and the error for the rows
/// beyond it.
pub fn read_sheet(rows: &Vec<Vec<Cell>>) -> (r: (Vec<ImportRow>, Vec<String>))
    requires
        rows@.len() <= u32::MAX,
    ensures
        rows_read(sheet(rows@), r.0@),
        texts(r.1@) == read_errors(sheet(rows@)),
        r.0@.len() <= MAX_IMPORT_ROWS,
        forall|k: int| 0 <= k < r.0@.len() ==> (#[trigger] r.0@[k]).row_no <= u32::MAX,
{
    proof {
        reveal(rows_read);
    }
    let ghost sh = sheet(rows@);
    let mut ps: Vec<ImportRow> = Vec::new();
    let mut errors: Vec<String> = Vec::new();
    if rows.len() == 0 {
        assert(texts(errors@) =~= read_errors(sh));
        return (ps, errors);
    }
    let mut i: usize = 1;
    let mut full = false;
    while i < rows.len() && !full
        invariant
            1 <= i <= rows@.len(),
            rows@.len() <= u32::MAX,
            sh == sheet(rows@),
            ps@.len() == named_rows(sh, i as int).len(),
            ps@.len() <= MAX_IMPORT_ROWS,
            full ==> i < rows@.len() && field(sh[i as int], 0).len() > 0 && ps@.len() == MAX_IMPORT_ROWS,
            forall|k: int| 0 <= k < ps@.len() ==> (#[trigger] ps@[k]).row_no <= i,
            forall|k: int|
                0 <= k < ps@.len() ==> is_row_of(
                    #[trigger] ps@[k],
                    sh[named_rows(sh, i as int)[k]],
                    named_rows(sh, i as int)[k] + 1,
                ),
        decreases (rows.len() - i) * 2 + (if full { 0int } else { 1int }),
    {
        assert(sh[i as int] == rows@[i as int]@);
        let name = field_text(&rows[i], 0);
        if name.as_str().unicode_len() > 0 {
            if ps.len() >= 5000 {
                full = true;
            } else {
                let p = parse_row(&rows[i], i + 1);
                ps.push(p);
                i = i + 1;
            }
        } else {
            i = i + 1;
        }
    }
    let ghost stop: int = if full { i + 1 } else { i as int };
    proof {
        lemma_named_prefix(sh, stop, sh.len() as int);
        lemma_named_prefix(sh, i as int, stop);
    }
    if full {
        let n = int_to_text((i + 1) as i64);
        let msg = concat3("超过5000行上限，第", n.as_str(), "行及之后被跳过");
        errors.push(msg);
        assert(named_rows(sh, stop)[MAX_IMPORT_ROWS as int] == i);
        assert(texts(errors@) =~= seq![msg@]);
    } else {
        assert(texts(errors@) =~= Seq::<Seq<char>>::empty());
    }
    assert(read_rows(sh) =~= named_rows(sh, i as int));
    (ps, errors)
}

// ---------------------------------------------------------------------------
// The import
// ---------------------------------------------------------------------------

/// Progress reports as (rows handled, rows in all, phase).
pub open spec fn progress_view(ev: Seq<ImportProgress>) -> Seq<(u32, u32, Seq<char>)> {
    ev.map_values(|e: ImportProgress| (e.processed, e.total, e.phase@))
}

/// The reports after every `PROGRESS_EVERY` rows, up to `n` rows.
pub open spec fn marks(total: u32, n: nat) -> Seq<(u32, u32, Seq<char>)>
    decreases n,
{
    if n == 0 {
        Seq::empty()
    } else if n % (PROGRESS_EVERY as nat) == 0 {
        marks(total, (n - 1) as nat).push((n as u32, total, "importing"@))
    } else {
        marks(total, (n - 1) as nat)
    }
}

/// The reports of an import: reading (with no total yet), importing, one
/// every `PROGRESS_EVERY` rows done, and `done` when every row went
/// through.
pub open spec fn import_events(total: u32, done: nat, finished: bool) -> Seq<(u32, u32, Seq<char>)> {
    seq![(0u32, 0u32, "parsing"@), (0u32, total, "importing"@)] + marks(total, done) + if finished {
        seq![(total, total, "done"@)]
    } else {
        Seq::empty()
    }
}

/// Row `k` of `ps` fails with `e`, an error that no rule of skipping
/// covers, after the rows before it went through.
pub open spec fn rows_fail(a: Database, ps: Seq<ImportRow>, opts: ImportOptions, now: String, k: int, e: AppError) -> bool {
    &&& 0 <= k < ps.len()
    &&& !rejects(e)
    &&& exists|dk: Database, tk: Tally, z: Database, t1: Tally|
        #[trigger] rows_ok(a, dk, ps.take(k), opts, now, tk) && #[trigger] row_fails(dk, z, ps[k], opts, now, e, tk, t1)
}

/// The tally a result reports.
pub open spec fn result_tally(res: ImportResult) -> Tally {
    Tally {
        imported: res.imported as nat,
        updated: res.updated as nat,
        skipped: res.skipped as nat,
        models_created: res.models_created as nat,
        warnings: texts(res.warnings@),
    }
}

fn progress(processed: u32, total: u32, phase: &str) -> (r: ImportProgress)
    ensures
        r.processed == processed,
        r.total == total,
        r.phase@ == phase@,
{
    ImportProgress { processed, total, phase: owned(phase) }
}

/// What importing the sheet `rows` into `a` at `now` gives: the rows read;
/// when every one goes through or is skipped (a row that a rule rejects is
/// skipped with a warning), the tables they lead to and the counts,
/// warnings, errors and progress reports; else the error of the first row
/// that fails otherwise, the tables unchanged, and the reports up to that
/// row.
pub open spec fn import_outcome(a: Database, b: Database, rows: Seq<Vec<Cell>>, opts: ImportOptions, now: String, r: (Result<ImportResult, AppError>, Vec<ImportProgress>)) -> bool {
    exists|ps: Seq<ImportRow>|
        #[trigger] rows_read(sheet(rows), ps) && match r.0 {
            Ok(res) => {
                &&& rows_ok(a, b, ps, opts, now, result_tally(res))
                &&& res.total == ps.len()
                &&& res.imported + res.updated + res.skipped == res.total
                &&& res.models_created <= res.total
                &&& texts(res.errors@) == read_errors(sheet(rows))
                &&& progress_view(r.1@) == import_events(ps.len() as u32, ps.len(), true)
            },
            Err(e) => {
                &&& b == a
                &&& exists|k: int|
                    #[trigger] rows_fail(a, ps, opts, now, k, e) && progress_view(r.1@) == import_events(
                        ps.len() as u32,
                        k as nat,
                        false,
                    )
            },
        }
}

/// Imports the rows of a sheet (the first row is the header) into `db` at
/// `now`. Rows with a blank name are not read, nor rows beyond the row
/// limit (reported as an error of the result). Each row read finds its rack
/// by name (created when missing), then an existing device in use by serial
/// number, asset number, or name in that rack. An existing device is
/// overwritten with what the row gives when the update mode is `overwrite`
/// and skipped otherwise; a new device is created. Before either, the rack
/// is linked to the row's room when asked, and the row's model is found
/// (never retyped; a different type gives a warning) or created with the
/// row's type. A row that a rule rejects (a validation or a conflict, such
/// as an overlapping slot range) is skipped: it counts as skipped, adds the
/// warning `第N行 已跳过：<message>`, and what its earlier steps made (a
/// rack, a room, a model) stays. Any other failure stops the import: its
/// error is returned and `db` is left as it was. Returns the result and
/// the progress reports, in order.
#[verifier::rlimit(60)]
pub fn import_devices_excel_at(db: &mut Database, rows: &Vec<Vec<Cell>>, options: &ImportOptions, now: &String) -> (r: (Result<ImportResult, AppError>, Vec<ImportProgress>))
    requires
        old(db).wf(),
        rows@.len() <= u32::MAX,
    ensures
        final(db).wf(),
        import_outcome(*old(db), *final(db), rows@, *options, *now, r),
{
    let (ps, errors) = read_sheet(rows);
    let total = ps.len() as u32;
    let mut events: Vec<ImportProgress> = Vec::new();
    events.push(progress(0, 0, "parsing"));
    events.push(progress(0, total, "importing"));
    proof {
        reveal_strlit("parsing");
        reveal_strlit("importing");
        assert(progress_view(events@) =~= import_events(total, 0, false));
    }
    let mut work = db.duplicate();
    let mut c = Counters { imported: 0, updated: 0, skipped: 0, models_created: 0, warnings: Vec::new() };
    assert(tally_of(c) == empty_tally()) by {
        assert(texts(c.warnings@) =~= Seq::<Seq<char>>::empty());
    }
    assert(ps@.take(0) =~= Seq::<ImportRow>::empty());
    proof {
        lemma_rows_ok_start(*old(db), work, *options, *now);
    }
    let mut i: usize = 0;
    while i < ps.len()
        invariant
            i <= ps@.len(),
            ps@.len() <= MAX_IMPORT_ROWS,
            total == ps@.len(),
            forall|k: int| 0 <= k < ps@.len() ==> (#[trigger] ps@[k]).row_no <= u32::MAX,
            work.wf(),
            old(db).wf(),
            *db == *old(db),
            rows_read(sheet(rows@), ps@),
            rows_ok(*old(db), work, ps@.take(i as int), *options, *now, tally_of(c)),
            c.imported + c.updated + c.skipped == i,
            c.models_created <= i,
            progress_view(events@) == import_events(total, i as nat, false),
        decreases ps.len() - i,
    {
        let ghost before = work;
        let ghost tb = tally_of(c);
        match import_row(&mut work, &ps[i], options, now, &mut c) {
            Ok(()) => {
                assert(row_step(before, work, ps@[i as int], *options, *now, tb, tally_of(c)));
            },
            Err(e) => {
                if e.is_rejectable() {
                    let ghost t1 = tally_of(c);
                    let n = int_to_text(ps[i].row_no as i64);
                    let head = concat3("第", n.as_str(), "行 已跳过：");
                    let msg = concat2(head.as_str(), e.message.as_str());
                    let ghost wb = c.warnings@;
                    c.warnings.push(msg);
                    c.skipped = c.skipped + 1;
                    proof {
                        lemma_texts_push(wb, msg);
                        assert(msg@ == skip_warning(ps@[i as int].row_no as int, e));
                        assert(texts(c.warnings@) =~= t1.warnings.push(skip_warning(ps@[i as int].row_no as int, e)));
                        assert(tally_of(c) == Tally {
                            skipped: t1.skipped + 1,
                            warnings: t1.warnings.push(skip_warning(ps@[i as int].row_no as int, e)),
                            ..t1
                        });
                        assert(row_skipped(before, work, ps@[i as int], *options, *now, tb, tally_of(c)));
                    }
                } else {
                    assert(rows_fail(*old(db), ps@, *options, *now, i as int, e));
                    return (Err(e), events);
                }
            },
        }
        proof {
            let next = ps@.take(i + 1);
            assert(next.drop_last() =~= ps@.take(i as int));
            assert(next.last() == ps@[i as int]);
            assert(rows_ok(*old(db), before, next.drop_last(), *options, *now, tb));
            lemma_rows_ok_step(*old(db), before, work, next, *options, *now, tb, tally_of(c));
        }
        i = i + 1;
        if i % 50 == 0 {
            let ghost ev0 = events@;
            let e = progress(i as u32, total, "importing");
            events.push(e);
            proof {
                reveal_strlit("importing");
                assert(progress_view(ev0) == import_events(total, (i - 1) as nat, false));
                assert(marks(total, i as nat) == marks(total, (i - 1) as nat).push((i as u32, total, "importing"@)));
                assert(progress_view(events@) =~= progress_view(ev0).push((i as u32, total, "importing"@)));
                assert(progress_view(events@) =~= import_events(total, i as nat, false));
            }
        } else {
            assert(progress_view(events@) =~= import_events(total, i as nat, false));
        }
    }
    assert(ps@.take(ps@.len() as int) =~= ps@);
    *db = work;
    events.push(progress(total, total, "done"));
    proof {
        reveal_strlit("done");
        assert(progress_view(events@) =~= import_events(total, total as nat, true));
    }
    let res = ImportResult {
        imported: c.imported,
        updated: c.updated,
        skipped: c.skipped,
        total,
        models_created: c.models_created,
        warnings: c.warnings,
        errors,
    };
    (Ok(res), events)
}

/// Imports the rows of a sheet at the current time (see
/// [`import_devices_excel_at`]).
pub fn import_devices_excel(db: &mut Database, rows: &Vec<Vec<Cell>>, options: &ImportOptions) -> (r: (Result<ImportResult, AppError>, Vec<ImportProgress>))
    requires
        old(db).wf(),
        rows@.len() <= u32::MAX,
    ensures
        final(db).wf(),
        exists|now: String| is_utc_stamp(now@) && #[trigger] import_outcome(*old(db), *final(db), rows@, *options, now, r),
{
    let now = crate::db::now_iso();
    import_devices_excel_at(db, rows, options, &now)
}

} // verus!
