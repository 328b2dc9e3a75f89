//! Records of the inventory (rooms, racks, device models, devices), the
//! requests that create and update them, the results that operations hand
//! back, and the normalisation of device types.
use vstd::prelude::*;
use crate::text::{chars_of, is_ascii_or_han_text, ascii_lower, is_whitespace, lowercase_text, str_equal, string_of, to_lowercase,
    trim_chars, trimmed, is_white_space};

verus! {

/// A three-state field of an update request.
///
/// - `Unset`: the field was not given; the stored value stays;
/// - `Assign(v)`: the field becomes `v`;
/// - `Clear`: the field becomes empty (`NULL`).
#[derive(Debug, Clone)]
pub enum Patch<T> {
    Unset,
    Assign(T),
    Clear,
}

impl<T> Default for Patch<T> {
    fn default() -> (r: Self)
        ensures
            r is Unset,
    {
        Patch::Unset
    }
}

impl<T> Patch<T> {
    /// True for `Unset`.
    pub fn is_unset(&self) -> (r: bool)
        ensures
            r == (*self is Unset),
    {
        match self {
            Patch::Unset => true,
            _ => false,
        }
    }
}

/// The name under which a patch is shown: `Unset`, `Assign` or `Clear`.
pub fn patch_label<T>(p: &Patch<T>) -> (r: &'static str)
    ensures
        r@ == match *p {
            Patch::Unset => "Unset"@,
            Patch::Assign(_) => "Assign"@,
            Patch::Clear => "Clear"@,
        },
{
    match p {
        Patch::Unset => "Unset",
        Patch::Assign(_) => "Assign",
        Patch::Clear => "Clear",
    }
}

/// A calendar date.
#[derive(Debug, Clone, Copy, PartialEq, Eq, Structural)]
pub struct Date {
    pub year: i32,
    pub month: u32,
    pub day: u32,
}

/// A copy of an optional string.
pub fn copy_opt_string(o: &Option<String>) -> (r: Option<String>)
    ensures
        r == *o,
{
    match o {
        Some(s) => Some(s.clone()),
        None => None,
    }
}

/// A device model (product line): its type, height and power.
#[derive(Debug)]
pub struct DeviceModel {
    pub id: i32,
    pub name: String,
    pub manufacturer: String,
    pub device_type: String,
    pub height_u: i32,
    pub power_watt: i32,
    pub created_at: Option<String>,
    pub updated_at: Option<String>,
}

impl Clone for DeviceModel {
    fn clone(&self) -> (r: Self)
        ensures
            r == *self,
    {
        DeviceModel {
            id: self.id,
            name: self.name.clone(),
            manufacturer: self.manufacturer.clone(),
            device_type: self.device_type.clone(),
            height_u: self.height_u,
            power_watt: self.power_watt,
            created_at: copy_opt_string(&self.created_at),
            updated_at: copy_opt_string(&self.updated_at),
        }
    }
}

/// A machine room.
#[derive(Debug)]
pub struct Room {
    pub id: i32,
    pub name: String,
    pub location: String,
    pub sort_order: i32,
    pub created_at: Option<String>,
    pub updated_at: Option<String>,
}

impl Clone for Room {
    fn clone(&self) -> (r: Self)
        ensures
            r == *self,
    {
        Room {
            id: self.id,
            name: self.name.clone(),
            location: self.location.clone(),
            sort_order: self.sort_order,
            created_at: copy_opt_string(&self.created_at),
            updated_at: copy_opt_string(&self.updated_at),
        }
    }
}

/// A rack of `height_u` slots, optionally placed in a room.
#[derive(Debug)]
pub struct Rack {
    pub id: i32,
    pub name: String,
    pub height_u: i32,
    pub row: i32,
    pub col: i32,
    pub view: String,
    pub sort_order: i32,
    pub room_id: Option<i32>,
    pub created_at: Option<String>,
    pub updated_at: Option<String>,
}

impl Clone for Rack {
    fn clone(&self) -> (r: Self)
        ensures
            r == *self,
    {
        Rack {
            id: self.id,
            name: self.name.clone(),
            height_u: self.height_u,
            row: self.row,
            col: self.col,
            view: self.view.clone(),
            sort_order: self.sort_order,
            room_id: self.room_id,
            created_at: copy_opt_string(&self.created_at),
            updated_at: copy_opt_string(&self.updated_at),
        }
    }
}

/// A device: where it stands (rack and slot range), what it is, and its
/// bookkeeping. `deleted_at` is set while the device sits in the recycle
/// bin.
#[derive(Debug)]
pub struct Device {
    pub id: i32,
    pub name: String,
    pub device_model_id: Option<i32>,
    pub rack_id: Option<i32>,
    pub start_u: Option<i32>,
    pub end_u: Option<i32>,
    pub ip_addresses: String,
    pub serial_no: String,
    pub asset_no: String,
    pub department: String,
    pub owner: String,
    pub function: String,
    pub purchase_date: Option<Date>,
    pub warranty_expire: Option<Date>,
    pub status: String,
    pub power_watt: i32,
    pub height_u: i32,
    pub created_at: Option<String>,
    pub updated_at: Option<String>,
    pub deleted_at: Option<String>,
}

impl Clone for Device {
    fn clone(&self) -> (r: Self)
        ensures
            r == *self,
    {
        Device {
            id: self.id,
            name: self.name.clone(),
            device_model_id: self.device_model_id,
            rack_id: self.rack_id,
            start_u: self.start_u,
            end_u: self.end_u,
            ip_addresses: self.ip_addresses.clone(),
            serial_no: self.serial_no.clone(),
            asset_no: self.asset_no.clone(),
            department: self.department.clone(),
            owner: self.owner.clone(),
            function: self.function.clone(),
            purchase_date: self.purchase_date,
            warranty_expire: self.warranty_expire,
            status: self.status.clone(),
            power_watt: self.power_watt,
            height_u: self.height_u,
            created_at: copy_opt_string(&self.created_at),
            updated_at: copy_opt_string(&self.updated_at),
            deleted_at: copy_opt_string(&self.deleted_at),
        }
    }
}

/// A request to create a device model.
#[derive(Debug, Clone)]
pub struct DeviceModelCreate {
    pub name: String,
    pub manufacturer: Option<String>,
    pub device_type: Option<String>,
    pub height_u: Option<i32>,
    pub power_watt: Option<i32>,
}

impl Default for DeviceModelCreate {
    fn default() -> (r: Self)
        ensures
            r.name@ == Seq::<char>::empty(),
            r.manufacturer is None,
            r.device_type is None,
            r.height_u is None,
            r.power_watt is None,
    {
        DeviceModelCreate {
            name: String::new(),
            manufacturer: None,
            device_type: None,
            height_u: None,
            power_watt: None,
        }
    }
}

/// A request to change a device model.
#[derive(Debug, Clone)]
pub struct DeviceModelUpdate {
    pub name: Patch<String>,
    pub manufacturer: Patch<String>,
    pub device_type: Patch<String>,
    pub height_u: Patch<i32>,
    pub power_watt: Patch<i32>,
}

impl Default for DeviceModelUpdate {
    fn default() -> (r: Self)
        ensures
            r.name is Unset,
            r.manufacturer is Unset,
            r.device_type is Unset,
            r.height_u is Unset,
            r.power_watt is Unset,
    {
        DeviceModelUpdate {
            name: Patch::Unset,
            manufacturer: Patch::Unset,
            device_type: Patch::Unset,
            height_u: Patch::Unset,
            power_watt: Patch::Unset,
        }
    }
}

/// A request to create a room.
#[derive(Debug, Clone)]
pub struct RoomCreate {
    pub name: String,
    pub location: Option<String>,
    pub sort_order: Option<i32>,
}

impl Default for RoomCreate {
    fn default() -> (r: Self)
        ensures
            r.name@ == Seq::<char>::empty(),
            r.location is None,
            r.sort_order is None,
    {
        RoomCreate { name: String::new(), location: None, sort_order: None }
    }
}

/// A request to change a room.
#[derive(Debug, Clone)]
pub struct RoomUpdate {
    pub name: Patch<String>,
    pub location: Patch<String>,
    pub sort_order: Patch<i32>,
}

impl Default for RoomUpdate {
    fn default() -> (r: Self)
        ensures
            r.name is Unset,
            r.location is Unset,
            r.sort_order is Unset,
    {
        RoomUpdate { name: Patch::Unset, location: Patch::Unset, sort_order: Patch::Unset }
    }
}

/// A request to create a rack.
#[derive(Debug, Clone)]
pub struct RackCreate {
    pub name: String,
    pub height_u: Option<i32>,
    pub row: Option<i32>,
    pub col: Option<i32>,
    pub view: Option<String>,
    pub sort_order: Option<i32>,
    pub room_id: Option<i32>,
}

impl Default for RackCreate {
    fn default() -> (r: Self)
        ensures
            r.name@ == Seq::<char>::empty(),
            r.height_u is None,
            r.row is None,
            r.col is None,
            r.view is None,
            r.sort_order is None,
            r.room_id is None,
    {
        RackCreate {
            name: String::new(),
            height_u: None,
            row: None,
            col: None,
            view: None,
            sort_order: None,
            room_id: None,
        }
    }
}

/// A request to change a rack.
#[derive(Debug, Clone)]
pub struct RackUpdate {
    pub name: Patch<String>,
    pub height_u: Patch<i32>,
    pub row: Patch<i32>,
    pub col: Patch<i32>,
    pub view: Patch<String>,
    pub sort_order: Patch<i32>,
    pub room_id: Patch<i32>,
}

impl Default for RackUpdate {
    fn default() -> (r: Self)
        ensures
            r.name is Unset,
            r.height_u is Unset,
            r.row is Unset,
            r.col is Unset,
            r.view is Unset,
            r.sort_order is Unset,
            r.room_id is Unset,
    {
        RackUpdate {
            name: Patch::Unset,
            height_u: Patch::Unset,
            row: Patch::Unset,
            col: Patch::Unset,
            view: Patch::Unset,
            sort_order: Patch::Unset,
            room_id: Patch::Unset,
        }
    }
}

/// A request to create a device. A missing `height_u` is derived from the
/// slot range, else from the model, else 1.
#[derive(Debug, Clone)]
pub struct DeviceCreate {
    pub name: String,
    pub device_model_id: Option<i32>,
    pub rack_id: Option<i32>,
    pub start_u: Option<i32>,
    pub end_u: Option<i32>,
    pub ip_addresses: Option<String>,
    pub serial_no: Option<String>,
    pub asset_no: Option<String>,
    pub department: Option<String>,
    pub owner: Option<String>,
    pub function: Option<String>,
    pub purchase_date: Option<String>,
    pub warranty_expire: Option<String>,
    pub status: Option<String>,
    pub power_watt: Option<i32>,
    pub height_u: Option<i32>,
}

impl Default for DeviceCreate {
    fn default() -> (r: Self)
        ensures
            r.name@ == Seq::<char>::empty(),
            r.device_model_id is None,
            r.rack_id is None,
            r.start_u is None,
            r.end_u is None,
            r.ip_addresses is None,
            r.serial_no is None,
            r.asset_no is None,
            r.department is None,
            r.owner is None,
            r.function is None,
            r.purchase_date is None,
            r.warranty_expire is None,
            r.status is None,
            r.power_watt is None,
            r.height_u is None,
    {
        DeviceCreate {
            name: String::new(),
            device_model_id: None,
            rack_id: None,
            start_u: None,
            end_u: None,
            ip_addresses: None,
            serial_no: None,
            asset_no: None,
            department: None,
            owner: None,
            function: None,
            purchase_date: None,
            warranty_expire: None,
            status: None,
            power_watt: None,
            height_u: None,
        }
    }
}

/// A request to change a device; every field is three-state.
#[derive(Debug, Clone)]
pub struct DeviceUpdate {
    pub name: Patch<String>,
    pub device_model_id: Patch<i32>,
    pub rack_id: Patch<i32>,
    pub start_u: Patch<i32>,
    pub end_u: Patch<i32>,
    pub ip_addresses: Patch<String>,
    pub serial_no: Patch<String>,
    pub asset_no: Patch<String>,
    pub department: Patch<String>,
    pub owner: Patch<String>,
    pub function: Patch<String>,
    pub purchase_date: Patch<String>,
    pub warranty_expire: Patch<String>,
    pub status: Patch<String>,
    pub power_watt: Patch<i32>,
    pub height_u: Patch<i32>,
}

impl Default for DeviceUpdate {
    fn default() -> (r: Self)
        ensures
            r.name is Unset,
            r.device_model_id is Unset,
            r.rack_id is Unset,
            r.start_u is Unset,
            r.end_u is Unset,
            r.ip_addresses is Unset,
            r.serial_no is Unset,
            r.asset_no is Unset,
            r.department is Unset,
            r.owner is Unset,
            r.function is Unset,
            r.purchase_date is Unset,
            r.warranty_expire is Unset,
            r.status is Unset,
            r.power_watt is Unset,
            r.height_u is Unset,
    {
        DeviceUpdate {
            name: Patch::Unset,
            device_model_id: Patch::Unset,
            rack_id: Patch::Unset,
            start_u: Patch::Unset,
            end_u: Patch::Unset,
            ip_addresses: Patch::Unset,
            serial_no: Patch::Unset,
            asset_no: Patch::Unset,
            department: Patch::Unset,
            owner: Patch::Unset,
            function: Patch::Unset,
            purchase_date: Patch::Unset,
            warranty_expire: Patch::Unset,
            status: Patch::Unset,
            power_watt: Patch::Unset,
            height_u: Patch::Unset,
        }
    }
}

/// The outcome of a spreadsheet import.
#[derive(Debug, Clone)]
pub struct ImportResult {
    /// New devices.
    pub imported: u32,
    /// Existing devices overwritten.
    pub updated: u32,
    /// Existing devices left alone.
    pub skipped: u32,
    /// Data rows read.
    pub total: u32,
    /// Device models created.
    pub models_created: u32,
    pub warnings: Vec<String>,
    pub errors: Vec<String>,
}

/// Progress of an import: rows handled, rows in all, and the phase
/// (`parsing`, `importing` or `done`).
#[derive(Debug, Clone)]
pub struct ImportProgress {
    pub processed: u32,
    pub total: u32,
    pub phase: String,
}

/// Filter, search, order and page of a device listing.
#[derive(Debug, Clone)]
pub struct DeviceQuery {
    pub rack_id: Option<i32>,
    pub room_id: Option<i32>,
    pub search: Option<String>,
    pub include_deleted: Option<bool>,
    pub sort_field: Option<String>,
    pub sort_order: Option<String>,
    pub offset: Option<i64>,
    pub limit: Option<i64>,
}

impl Default for DeviceQuery {
    fn default() -> (r: Self)
        ensures
            r.rack_id is None,
            r.room_id is None,
            r.search is None,
            r.include_deleted is None,
            r.sort_field is None,
            r.sort_order is None,
            r.offset is None,
            r.limit is None,
    {
        DeviceQuery {
            rack_id: None,
            room_id: None,
            search: None,
            include_deleted: None,
            sort_field: None,
            sort_order: None,
            offset: None,
            limit: None,
        }
    }
}

/// One page of devices and the number of devices that match in all.
#[derive(Debug, Clone)]
pub struct DevicePage {
    pub items: Vec<Device>,
    pub total: i64,
}

/// Options of an import: `update_mode` (`skip` or `overwrite`) for rows that
/// match an existing device, and whether to link racks to rooms.
#[derive(Debug, Clone)]
pub struct ImportOptions {
    pub update_mode: String,
    pub link_room: bool,
}

impl Default for ImportOptions {
    fn default() -> (r: Self)
        ensures
            r.update_mode@ == Seq::<char>::empty(),
            !r.link_room,
    {
        ImportOptions { update_mode: String::new(), link_room: false }
    }
}

/// The outcome of a batch deletion.
#[derive(Debug, Clone)]
pub struct DeleteBatchResult {
    pub deleted: u32,
    pub not_found: Vec<i32>,
}

/// The outcome of a backup or restore request.
#[derive(Debug, Clone)]
pub struct RestoreResult {
    pub restart_required: bool,
    pub message: String,
}

/// One backup file as listed to the user.
#[derive(Debug, Clone)]
pub struct BackupInfo {
    pub name: String,
    pub full_path: String,
    pub size_bytes: i64,
    pub modified_at: String,
    pub valid: bool,
}

/// The health of the live database.
#[derive(Debug, Clone)]
pub struct DbHealth {
    pub ok: bool,
    pub message: String,
    pub backup_count: i64,
}

/// `s` without white space, `_` and `-`.
pub open spec fn drop_separators(s: Seq<char>) -> Seq<char>
    decreases s.len(),
{
    if s.len() == 0 {
        s
    } else {
        let rest = drop_separators(s.drop_last());
        let c = s.last();
        if is_white_space(c) || c == '_' || c == '-' {
            rest
        } else {
            rest.push(c)
        }
    }
}

/// What `str::to_lowercase` gives for `t`: `A`–`Z` lowered on text of
/// ASCII and Han characters, the named full case mapping otherwise.
pub open spec fn lowered(t: Seq<char>) -> Seq<char> {
    if is_ascii_or_han_text(t) {
        ascii_lower(t)
    } else {
        lowercase_text(t)
    }
}

/// The key under which a device type is looked up: trimmed, lower-cased,
/// without white space, `_` and `-`.
pub open spec fn type_key(raw: Seq<char>) -> Seq<char> {
    drop_separators(lowered(trimmed(raw)))
}

/// The device type (one of eight) that a raw type text stands for.
pub open spec fn device_type_of_key(k: Seq<char>) -> Seq<char> {
    if k == "server"@ || k == "服务器"@ {
        "server"@
    } else if k == "switch"@ || k == "交换机"@ {
        "switch"@
    } else if k == "router"@ || k == "路由器"@ {
        "router"@
    } else if k == "storage"@ || k == "存储阵列"@ || k == "存储"@ {
        "storage"@
    } else if k == "nas"@ || k == "nas存储"@ {
        "nas"@
    } else if k == "security"@ || k == "网安设备"@ || k == "安全设备"@ {
        "security"@
    } else if k == "loadbalancer"@ || k == "负载均衡"@ || k == "lb"@ {
        "loadbalancer"@
    } else {
        "other"@
    }
}

/// The normalised type of a raw device type text.
pub open spec fn normalized_type(raw: Seq<char>) -> Seq<char> {
    device_type_of_key(type_key(raw))
}

/// The lookup key of a raw type text (see [`type_key`]).
pub fn normalize_key(raw: &str) -> (r: String)
    ensures
        r@ == type_key(raw@),
{
    let cs = chars_of(raw);
    let t = trim_chars(cs.as_slice());
    let ts = string_of(t.as_slice());
    let lower = to_lowercase(ts.as_str());
    let lc = chars_of(lower.as_str());
    let mut out: Vec<char> = Vec::new();
    let mut i: usize = 0;
    while i < lc.len()
        invariant
            i <= lc@.len(),
            out@ == drop_separators(lc@.take(i as int)),
        decreases lc.len() - i,
    {
        let c = lc[i];
        assert(lc@.take(i + 1).drop_last() =~= lc@.take(i as int));
        if !(is_whitespace(c) || c == '_' || c == '-') {
            out.push(c);
        }
        i = i + 1;
    }
    assert(lc@.take(lc@.len() as int) =~= lc@);
    string_of(out.as_slice())
}

/// Maps a raw device type (Chinese name or English value, any case, with
/// white space, `_` and `-` ignored) to one of `server`, `switch`, `router`,
/// `storage`, `nas`, `security`, `loadbalancer`, `other`; unknown and empty
/// texts give `other`.
pub fn normalize_device_type(raw: &str) -> (r: &'static str)
    ensures
        r@ == normalized_type(raw@),
{
    let key = normalize_key(raw);
    let k = key.as_str();
    if str_equal(k, "server") || str_equal(k, "服务器") {
        "server"
    } else if str_equal(k, "switch") || str_equal(k, "交换机") {
        "switch"
    } else if str_equal(k, "router") || str_equal(k, "路由器") {
        "router"
    } else if str_equal(k, "storage") || str_equal(k, "存储阵列") || str_equal(k, "存储") {
        "storage"
    } else if str_equal(k, "nas") || str_equal(k, "nas存储") {
        "nas"
    } else if str_equal(k, "security") || str_equal(k, "网安设备") || str_equal(k, "安全设备") {
        "security"
    } else if str_equal(k, "loadbalancer") || str_equal(k, "负载均衡") || str_equal(k, "lb") {
        "loadbalancer"
    } else {
        "other"
    }
}

/// True when the raw type text is itself a way of writing "other"
/// (`other` or `其他`), as opposed to an unknown text that falls back to it.
pub fn is_known_other(raw: &str) -> (r: bool)
    ensures
        r == (type_key(raw@) == "other"@ || type_key(raw@) == "其他"@),
{
    let k = normalize_key(raw);
    str_equal(k.as_str(), "other") || str_equal(k.as_str(), "其他")
}

} // verus!
