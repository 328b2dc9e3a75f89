//! The inventory database: the tables of rooms, racks, device models,
//! devices and settings, held as plain values, with the invariant that the
//! stored schema guarantees (increasing unique ids, unique names, unique
//! serial and asset numbers among devices in use).
use vstd::prelude::*;
use crate::error::AppError;
use crate::models::{Date, Device, DeviceModel, Rack, Room};
use crate::validation::{date_text, is_calendar_date, two_digits};

pub mod devices;
pub mod racks;
pub mod rooms;
pub mod device_models;
pub mod settings;
pub mod check;

verus! {

/// One stored setting.
#[derive(Debug)]
pub struct Setting {
    pub key: String,
    pub value: String,
}

impl Clone for Setting {
    fn clone(&self) -> (r: Self)
        ensures
            r == *self,
    {
        Setting { key: self.key.clone(), value: self.value.clone() }
    }
}

/// The tables of the inventory. Rows are kept in id order; `next_*_id` is the
/// id the next inserted row receives (ids are never reused).
#[derive(Debug)]
pub struct Database {
    pub rooms: Vec<Room>,
    pub racks: Vec<Rack>,
    pub device_models: Vec<DeviceModel>,
    pub devices: Vec<Device>,
    pub settings: Vec<Setting>,
    pub next_room_id: i64,
    pub next_rack_id: i64,
    pub next_model_id: i64,
    pub next_device_id: i64,
}

/// A point in time: seconds since the Unix epoch and the nanoseconds within
/// that second.
#[derive(Debug, Clone, Copy, PartialEq, Eq, Structural)]
pub struct Instant {
    pub secs: i64,
    pub nanos: u32,
}

/// An instant in nanoseconds since the epoch.
pub open spec fn instant_nanos(t: Instant) -> int {
    t.secs * 1_000_000_000 + t.nanos
}

/// The instant that `DateTime::parse_from_rfc3339` reads from a text, if any.
pub uninterp spec fn rfc3339_instant(s: Seq<char>) -> Option<Instant>;

/// `chrono::DateTime::parse_from_rfc3339`, converted to UTC seconds and
/// nanoseconds: a function of the text alone, named `rfc3339_instant`;
/// chrono's grammar is not stated here.
#[verifier::external_body]
pub(crate) fn parse_rfc3339(s: &str) -> (r: Option<Instant>)
    ensures
        r == rfc3339_instant(s@),
{
    match chrono::DateTime::parse_from_rfc3339(s) {
        Ok(dt) => Some(Instant { secs: dt.timestamp(), nanos: dt.timestamp_subsec_nanos() }),
        Err(_) => None,
    }
}

/// The current time from the system clock (`Utc::now`). Nothing is stated
/// of it: it depends on the clock.
#[verifier::external_body]
pub(crate) fn now_instant() -> (r: Instant) {
    let t = chrono::Utc::now();
    Instant { secs: t.timestamp(), nanos: t.timestamp_subsec_nanos() }
}

/// A UTC time written as `%Y-%m-%dT%H:%M:%SZ`: a calendar date as
/// [`date_text`] writes it, `T`, the hour, minute and second with two
/// digits each (a leap second shows as 60), and `Z`.
pub open spec fn is_utc_stamp(t: Seq<char>) -> bool {
    exists|d: Date, h: int, mi: int, sec: int|
        #![trigger date_text(d), two_digits(h), two_digits(mi), two_digits(sec)]
        {
            &&& is_calendar_date(d)
            &&& 0 <= h < 24
            &&& 0 <= mi < 60
            &&& 0 <= sec <= 60
            &&& t == date_text(d) + "T"@ + two_digits(h) + ":"@ + two_digits(mi) + ":"@ + two_digits(sec) + "Z"@
        }
}

/// The current UTC time as `%Y-%m-%dT%H:%M:%SZ` (chrono's `Utc::now` and
/// `format`; the single source of the timestamps that rows carry). Which
/// time it is depends on the clock; what is stated is the text's shape,
/// which holds of every time chrono can hold.
#[verifier::external_body]
pub(crate) fn now_iso() -> (r: String)
    ensures
        is_utc_stamp(r@),
{
    chrono::Utc::now().format("%Y-%m-%dT%H:%M:%SZ").to_string()
}

/// Position of `id` in `ids` (its last occurrence), or -1.
pub open spec fn id_pos(ids: Seq<i32>, id: i32) -> int
    decreases ids.len(),
{
    if ids.len() == 0 {
        -1
    } else if ids.last() == id {
        ids.len() - 1
    } else {
        id_pos(ids.drop_last(), id)
    }
}

/// Strictly increasing ids.
pub open spec fn ids_increasing(ids: Seq<i32>) -> bool {
    forall|i: int, j: int| 0 <= i < j < ids.len() ==> ids[i] < ids[j]
}

/// Every id at least 1 and below `next`, and `next` at most one past the
/// largest `i32`.
pub open spec fn ids_bounded(ids: Seq<i32>, next: i64) -> bool {
    &&& forall|i: int| 0 <= i < ids.len() ==> 1 <= #[trigger] ids[i] < next
    &&& 1 <= next <= i32::MAX + 1
}

pub proof fn lemma_id_pos_found(ids: Seq<i32>, id: i32, k: int)
    requires
        ids_increasing(ids),
        0 <= k < ids.len(),
        ids[k] == id,
    ensures
        id_pos(ids, id) == k,
    decreases ids.len(),
{
    if k < ids.len() - 1 {
        assert(ids[k] < ids[ids.len() - 1]);
        assert(ids_increasing(ids.drop_last()));
        lemma_id_pos_found(ids.drop_last(), id, k);
    }
}

pub proof fn lemma_id_pos_absent(ids: Seq<i32>, id: i32)
    requires
        forall|k: int| 0 <= k < ids.len() ==> ids[k] != id,
    ensures
        id_pos(ids, id) == -1,
    decreases ids.len(),
{
    if ids.len() > 0 {
        lemma_id_pos_absent(ids.drop_last(), id);
    }
}

pub proof fn lemma_id_pos_range(ids: Seq<i32>, id: i32)
    ensures
        -1 <= id_pos(ids, id) < ids.len(),
        id_pos(ids, id) >= 0 ==> ids[id_pos(ids, id)] == id,
        id_pos(ids, id) == -1 ==> forall|k: int| 0 <= k < ids.len() ==> ids[k] != id,
    decreases ids.len(),
{
    if ids.len() > 0 {
        lemma_id_pos_range(ids.drop_last(), id);
        if id_pos(ids, id) == -1 {
            assert forall|k: int| 0 <= k < ids.len() implies ids[k] != id by {
                if k < ids.len() - 1 {
                    assert(ids.drop_last()[k] == ids[k]);
                }
            }
        }
    }
}

/// Ids of rooms.
pub open spec fn room_ids(s: Seq<Room>) -> Seq<i32> {
    s.map_values(|r: Room| r.id)
}

/// Ids of racks.
pub open spec fn rack_ids(s: Seq<Rack>) -> Seq<i32> {
    s.map_values(|r: Rack| r.id)
}

/// Ids of device models.
pub open spec fn model_ids(s: Seq<DeviceModel>) -> Seq<i32> {
    s.map_values(|m: DeviceModel| m.id)
}

/// Ids of devices.
pub open spec fn device_ids(s: Seq<Device>) -> Seq<i32> {
    s.map_values(|d: Device| d.id)
}

/// A device in use (not in the recycle bin).
pub open spec fn is_active(d: Device) -> bool {
    d.deleted_at is None
}

/// No two devices in use share a non-empty serial number, nor a non-empty
/// asset number (the partial unique indexes of the schema).
pub open spec fn active_numbers_unique(ds: Seq<Device>) -> bool {
    forall|i: int, j: int|
        0 <= i < ds.len() && 0 <= j < ds.len() && i != j && is_active(ds[i]) && is_active(
            ds[j],
        ) ==> {
            &&& (ds[i].serial_no@.len() > 0 ==> ds[i].serial_no@ != ds[j].serial_no@)
            &&& (ds[i].asset_no@.len() > 0 ==> ds[i].asset_no@ != ds[j].asset_no@)
        }
}

/// Non-empty room names are unique.
pub open spec fn room_names_unique(rs: Seq<Room>) -> bool {
    forall|i: int, j: int|
        0 <= i < rs.len() && 0 <= j < rs.len() && i != j && rs[i].name@.len() > 0 ==> rs[i].name@
            != rs[j].name@
}

/// Non-empty model names are unique.
pub open spec fn model_names_unique(ms: Seq<DeviceModel>) -> bool {
    forall|i: int, j: int|
        0 <= i < ms.len() && 0 <= j < ms.len() && i != j && ms[i].name@.len() > 0 ==> ms[i].name@
            != ms[j].name@
}

/// A slot range whose height fits an `i32`.
pub open spec fn span_fits(d: Device) -> bool {
    d.start_u is Some && d.end_u is Some && d.end_u->0 >= d.start_u->0 ==> d.end_u->0
        - d.start_u->0 + 1 <= i32::MAX
}

/// Setting keys are unique.
pub open spec fn setting_keys_unique(s: Seq<Setting>) -> bool {
    forall|i: int, j: int| 0 <= i < s.len() && 0 <= j < s.len() && i != j ==> s[i].key@ != s[j].key@
}

impl Database {
    /// The invariant of the tables.
    pub open spec fn wf(&self) -> bool {
        &&& ids_increasing(room_ids(self.rooms@))
        &&& ids_bounded(room_ids(self.rooms@), self.next_room_id)
        &&& ids_increasing(rack_ids(self.racks@))
        &&& ids_bounded(rack_ids(self.racks@), self.next_rack_id)
        &&& ids_increasing(model_ids(self.device_models@))
        &&& ids_bounded(model_ids(self.device_models@), self.next_model_id)
        &&& ids_increasing(device_ids(self.devices@))
        &&& ids_bounded(device_ids(self.devices@), self.next_device_id)
        &&& active_numbers_unique(self.devices@)
        &&& room_names_unique(self.rooms@)
        &&& model_names_unique(self.device_models@)
        &&& forall|i: int| 0 <= i < self.devices@.len() ==> span_fits(#[trigger] self.devices@[i])
        &&& setting_keys_unique(self.settings@)
    }

    /// An empty database, as a fresh schema leaves it (logging off).
    pub fn new() -> (db: Self)
        ensures
            db.wf(),
            db.rooms@.len() == 0,
            db.racks@.len() == 0,
            db.device_models@.len() == 0,
            db.devices@.len() == 0,
            db.settings@.len() == 1,
            db.settings@[0].key@ == "logging_enabled"@,
            db.settings@[0].value@ == "false"@,
    {
        let mut settings: Vec<Setting> = Vec::new();
        settings.push(
            Setting {
                key: crate::text::owned("logging_enabled"),
                value: crate::text::owned("false"),
            },
        );
        let db = Database {
            rooms: Vec::new(),
            racks: Vec::new(),
            device_models: Vec::new(),
            devices: Vec::new(),
            settings,
            next_room_id: 1,
            next_rack_id: 1,
            next_model_id: 1,
            next_device_id: 1,
        };
        assert(room_ids(db.rooms@) =~= Seq::<i32>::empty());
        assert(rack_ids(db.racks@) =~= Seq::<i32>::empty());
        assert(model_ids(db.device_models@) =~= Seq::<i32>::empty());
        assert(device_ids(db.devices@) =~= Seq::<i32>::empty());
        db
    }
}

/// Position of the room with `id`, if there is one.
pub fn room_position(rooms: &Vec<Room>, id: i32) -> (r: Option<usize>)
    requires
        ids_increasing(room_ids(rooms@)),
    ensures
        match r {
            Some(i) => i == id_pos(room_ids(rooms@), id),
            None => id_pos(room_ids(rooms@), id) == -1,
        },
{
    let mut i: usize = 0;
    while i < rooms.len()
        invariant
            i <= rooms@.len(),
            ids_increasing(room_ids(rooms@)),
            forall|k: int| 0 <= k < i ==> rooms@[k].id != id,
        decreases rooms.len() - i,
    {
        if rooms[i].id == id {
            proof {
                lemma_id_pos_found(room_ids(rooms@), id, i as int);
            }
            return Some(i);
        }
        i = i + 1;
    }
    proof {
        lemma_id_pos_absent(room_ids(rooms@), id);
    }
    None
}

/// Position of the rack with `id`, if there is one.
pub fn rack_position(racks: &Vec<Rack>, id: i32) -> (r: Option<usize>)
    requires
        ids_increasing(rack_ids(racks@)),
    ensures
        match r {
            Some(i) => i == id_pos(rack_ids(racks@), id),
            None => id_pos(rack_ids(racks@), id) == -1,
        },
{
    let mut i: usize = 0;
    while i < racks.len()
        invariant
            i <= racks@.len(),
            ids_increasing(rack_ids(racks@)),
            forall|k: int| 0 <= k < i ==> racks@[k].id != id,
        decreases racks.len() - i,
    {
        if racks[i].id == id {
            proof {
                lemma_id_pos_found(rack_ids(racks@), id, i as int);
            }
            return Some(i);
        }
        i = i + 1;
    }
    proof {
        lemma_id_pos_absent(rack_ids(racks@), id);
    }
    None
}

/// Position of the device model with `id`, if there is one.
pub fn model_position(models: &Vec<DeviceModel>, id: i32) -> (r: Option<usize>)
    requires
        ids_increasing(model_ids(models@)),
    ensures
        match r {
            Some(i) => i == id_pos(model_ids(models@), id),
            None => id_pos(model_ids(models@), id) == -1,
        },
{
    let mut i: usize = 0;
    while i < models.len()
        invariant
            i <= models@.len(),
            ids_increasing(model_ids(models@)),
            forall|k: int| 0 <= k < i ==> models@[k].id != id,
        decreases models.len() - i,
    {
        if models[i].id == id {
            proof {
                lemma_id_pos_found(model_ids(models@), id, i as int);
            }
            return Some(i);
        }
        i = i + 1;
    }
    proof {
        lemma_id_pos_absent(model_ids(models@), id);
    }
    None
}

/// Position of the device with `id`, if there is one.
pub fn device_position(devices: &Vec<Device>, id: i32) -> (r: Option<usize>)
    requires
        ids_increasing(device_ids(devices@)),
    ensures
        match r {
            Some(i) => i == id_pos(device_ids(devices@), id),
            None => id_pos(device_ids(devices@), id) == -1,
        },
{
    let mut i: usize = 0;
    while i < devices.len()
        invariant
            i <= devices@.len(),
            ids_increasing(device_ids(devices@)),
            forall|k: int| 0 <= k < i ==> devices@[k].id != id,
        decreases devices.len() - i,
    {
        if devices[i].id == id {
            proof {
                lemma_id_pos_found(device_ids(devices@), id, i as int);
            }
            return Some(i);
        }
        i = i + 1;
    }
    proof {
        lemma_id_pos_absent(device_ids(devices@), id);
    }
    None
}

/// True when the two databases hold the same tables and the same next ids.
pub open spec fn same_tables(a: Database, b: Database) -> bool {
    &&& a.rooms@ == b.rooms@
    &&& a.racks@ == b.racks@
    &&& a.device_models@ == b.device_models@
    &&& a.devices@ == b.devices@
    &&& a.settings@ == b.settings@
    &&& a.next_room_id == b.next_room_id
    &&& a.next_rack_id == b.next_rack_id
    &&& a.next_model_id == b.next_model_id
    &&& a.next_device_id == b.next_device_id
}

fn copy_rooms(v: &Vec<Room>) -> (r: Vec<Room>)
    ensures
        r@ == v@,
{
    let mut out: Vec<Room> = Vec::new();
    let mut i: usize = 0;
    while i < v.len()
        invariant
            i <= v@.len(),
            out@ =~= v@.take(i as int),
        decreases v.len() - i,
    {
        out.push(v[i].clone());
        i = i + 1;
    }
    out
}

fn copy_racks(v: &Vec<Rack>) -> (r: Vec<Rack>)
    ensures
        r@ == v@,
{
    let mut out: Vec<Rack> = Vec::new();
    let mut i: usize = 0;
    while i < v.len()
        invariant
            i <= v@.len(),
            out@ =~= v@.take(i as int),
        decreases v.len() - i,
    {
        out.push(v[i].clone());
        i = i + 1;
    }
    out
}

fn copy_models(v: &Vec<DeviceModel>) -> (r: Vec<DeviceModel>)
    ensures
        r@ == v@,
{
    let mut out: Vec<DeviceModel> = Vec::new();
    let mut i: usize = 0;
    while i < v.len()
        invariant
            i <= v@.len(),
            out@ =~= v@.take(i as int),
        decreases v.len() - i,
    {
        out.push(v[i].clone());
        i = i + 1;
    }
    out
}

fn copy_devices(v: &Vec<Device>) -> (r: Vec<Device>)
    ensures
        r@ == v@,
{
    let mut out: Vec<Device> = Vec::new();
    let mut i: usize = 0;
    while i < v.len()
        invariant
            i <= v@.len(),
            out@ =~= v@.take(i as int),
        decreases v.len() - i,
    {
        out.push(v[i].clone());
        i = i + 1;
    }
    out
}

fn copy_settings(v: &Vec<Setting>) -> (r: Vec<Setting>)
    ensures
        r@ == v@,
{
    let mut out: Vec<Setting> = Vec::new();
    let mut i: usize = 0;
    while i < v.len()
        invariant
            i <= v@.len(),
            out@ =~= v@.take(i as int),
        decreases v.len() - i,
    {
        out.push(v[i].clone());
        i = i + 1;
    }
    out
}

impl Database {
    /// A copy of every table, to work on and commit or drop as a whole.
    pub fn duplicate(&self) -> (r: Database)
        ensures
            same_tables(r, *self),
    {
        Database {
            rooms: copy_rooms(&self.rooms),
            racks: copy_racks(&self.racks),
            device_models: copy_models(&self.device_models),
            devices: copy_devices(&self.devices),
            settings: copy_settings(&self.settings),
            next_room_id: self.next_room_id,
            next_rack_id: self.next_rack_id,
            next_model_id: self.next_model_id,
            next_device_id: self.next_device_id,
        }
    }
}


/// Runs `f` on the database as one transaction and gives back what `f`
/// returned: when it succeeds its changes stay, as `f` made them; when it
/// fails with an error, that error comes back and every table (and every
/// next id) is as it was before the call.
pub fn with_transaction<T, F>(db: &mut Database, f: F) -> (r: Result<T, AppError>)
    where
        F: FnOnce(&mut Database) -> Result<T, AppError>,
    requires
        forall|d: &mut Database| *d == *old(db) ==> #[trigger] f.requires((d,)),
    ensures
        exists|d: &mut Database|
            *d == *old(db) && #[trigger] f.ensures((d,), r) && (r is Ok ==> *final(d) == *final(db)),
        r is Err ==> same_tables(*final(db), *old(db)),
{
    let snapshot = db.duplicate();
    let r = f(db);
    match r {
        Ok(v) => Ok(v),
        Err(e) => {
            *db = snapshot;
            Err(e)
        },
    }
}

} // verus!
