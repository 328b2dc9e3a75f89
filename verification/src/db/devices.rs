//! The devices table: lookups, placement rules, creation, three-state
//! updates, soft deletion with a recycle bin, restore within a window,
//! and filtered, searched, ordered and paged listings.
use vstd::prelude::*;
use crate::db::is_utc_stamp;
use crate::db::{Database, id_pos, device_ids, rack_ids, model_ids, is_active, device_position,
    rack_position, model_position, active_numbers_unique, ids_increasing, ids_bounded, span_fits,
    now_iso, now_instant, parse_rfc3339, rfc3339_instant, instant_nanos, Instant, lemma_id_pos_range,
    lemma_id_pos_found};
use crate::error::{AppError, is_validation, is_conflict, is_database_error, is_not_found};
use crate::models::{Device, DeviceCreate, DeviceUpdate, DeviceQuery, Patch, Date, copy_opt_string};
use crate::like::{like_match, like_matches, search_pattern};
use crate::validation::escape_like;
use crate::text::{concat2, concat3, int_to_text, int_text, owned, str_equal, trim_str, trimmed};
use crate::validation::{validate_u_range, u_range_error, validate_ip_addresses, ip_list_error,
    bad_ip_message, validate_status, is_device_status, bad_status_message, parse_optional_date,
    parse_flexible_date, date_of_text};

verus! {

// ---------------------------------------------------------------------------
// Failures
// ---------------------------------------------------------------------------

/// The failure an operation is specified to report.
pub enum Failure {
    /// A rejected input, with its message.
    Validation(Seq<char>),
    /// A clash with other rows, with its message.
    Conflict(Seq<char>),
    /// A statement refused by the schema, with the database's text.
    Database(Seq<char>),
    /// A missing row, with the name of the entity.
    Missing(Seq<char>),
}

/// True when `e` is the error that `f` describes.
pub open spec fn failure_is(e: AppError, f: Failure) -> bool {
    match f {
        Failure::Validation(m) => is_validation(e, m),
        Failure::Conflict(m) => is_conflict(e, m),
        Failure::Database(d) => is_database_error(e, d),
        Failure::Missing(n) => is_not_found(e, n),
    }
}

// ---------------------------------------------------------------------------
// Lookups
// ---------------------------------------------------------------------------

/// The device with `id`, if any.
pub open spec fn device_at(db: Database, id: i32) -> Option<Device> {
    let p = id_pos(device_ids(db.devices@), id);
    if p >= 0 {
        Some(db.devices@[p])
    } else {
        None
    }
}

/// The device with `id`, if any (deleted or not).
pub fn get_device(db: &Database, id: i32) -> (r: Option<Device>)
    requires
        db.wf(),
    ensures
        r == device_at(*db, id),
{
    proof {
        lemma_id_pos_range(device_ids(db.devices@), id);
    }
    match device_position(&db.devices, id) {
        Some(p) => Some(db.devices[p].clone()),
        None => None,
    }
}

/// The first device in use (in id order) whose serial number is `sn`; none
/// for the empty text.
pub open spec fn first_active_serial(ds: Seq<Device>, sn: Seq<char>, exclude: i32) -> Option<Device>
    decreases ds.len(),
{
    if ds.len() == 0 {
        None
    } else if is_active(ds[0]) && sn.len() > 0 && ds[0].serial_no@ == sn && ds[0].id != exclude {
        Some(ds[0])
    } else {
        first_active_serial(ds.drop_first(), sn, exclude)
    }
}

/// The first device in use (in id order) whose asset number is `an`; none
/// for the empty text.
pub open spec fn first_active_asset(ds: Seq<Device>, an: Seq<char>, exclude: i32) -> Option<Device>
    decreases ds.len(),
{
    if ds.len() == 0 {
        None
    } else if is_active(ds[0]) && an.len() > 0 && ds[0].asset_no@ == an && ds[0].id != exclude {
        Some(ds[0])
    } else {
        first_active_asset(ds.drop_first(), an, exclude)
    }
}

/// The first device in use (in id order) called `name` in rack `rack_id`
/// (`None`: not in any rack).
pub open spec fn first_named_in_rack(ds: Seq<Device>, name: Seq<char>, rack_id: Option<i32>) -> Option<
    Device,
>
    decreases ds.len(),
{
    if ds.len() == 0 {
        None
    } else if is_active(ds[0]) && ds[0].name@ == name && ds[0].rack_id == rack_id {
        Some(ds[0])
    } else {
        first_named_in_rack(ds.drop_first(), name, rack_id)
    }
}

/// How a scan picks a device.
enum Probe {
    Serial,
    Asset,
    NameInRack,
}

fn scan(ds: &Vec<Device>, probe: Probe, key: &str, exclude: i32, rack_id: Option<i32>) -> (r: Option<
    Device,
>)
    ensures
        probe is Serial ==> r == first_active_serial(ds@, key@, exclude),
        probe is Asset ==> r == first_active_asset(ds@, key@, exclude),
        probe is NameInRack ==> r == first_named_in_rack(ds@, key@, rack_id),
{
    let nonempty = !key.is_empty();
    let mut i: usize = 0;
    assert(ds@.skip(0) =~= ds@);
    while i < ds.len()
        invariant
            i <= ds@.len(),
            nonempty == (key@.len() > 0),
            probe is Serial ==> first_active_serial(ds@, key@, exclude) == first_active_serial(
                ds@.skip(i as int),
                key@,
                exclude,
            ),
            probe is Asset ==> first_active_asset(ds@, key@, exclude) == first_active_asset(
                ds@.skip(i as int),
                key@,
                exclude,
            ),
            probe is NameInRack ==> first_named_in_rack(ds@, key@, rack_id) == first_named_in_rack(
                ds@.skip(i as int),
                key@,
                rack_id,
            ),
        decreases ds.len() - i,
    {
        let d = &ds[i];
        assert(ds@.skip(i as int)[0] == ds@[i as int]);
        assert(ds@.skip(i as int).drop_first() =~= ds@.skip(i + 1));
        let active = d.deleted_at.is_none();
        let hit = match probe {
            Probe::Serial => active && nonempty && str_equal(d.serial_no.as_str(), key)
                && d.id != exclude,
            Probe::Asset => active && nonempty && str_equal(d.asset_no.as_str(), key) && d.id
                != exclude,
            Probe::NameInRack => active && str_equal(d.name.as_str(), key) && d.rack_id == rack_id,
        };
        if hit {
            return Some(d.clone());
        }
        i = i + 1;
    }
    None
}

/// The device in use with serial number `serial_no` (the empty text finds
/// none).
pub fn find_device_by_serial(db: &Database, serial_no: &str) -> (r: Option<Device>)
    ensures
        r == first_active_serial(db.devices@, serial_no@, -1i32),
{
    scan(&db.devices, Probe::Serial, serial_no, -1, None)
}

/// The device in use with asset number `asset_no` (the empty text finds
/// none).
pub fn find_device_by_asset(db: &Database, asset_no: &str) -> (r: Option<Device>)
    ensures
        r == first_active_asset(db.devices@, asset_no@, -1i32),
{
    scan(&db.devices, Probe::Asset, asset_no, -1, None)
}

/// The device in use called `name` in rack `rack_id` (`None`: in no rack).
/// Devices in the recycle bin are never found.
pub fn find_device_by_name_in_rack(db: &Database, name: &str, rack_id: Option<i32>) -> (r: Option<
    Device,
>)
    ensures
        r == first_named_in_rack(db.devices@, name@, rack_id),
{
    scan(&db.devices, Probe::NameInRack, name, -1, rack_id)
}


// ---------------------------------------------------------------------------
// Soft deletion, batch deletion, purge
// ---------------------------------------------------------------------------

/// True when the two databases differ at most in the devices table.
pub open spec fn same_but_devices(a: Database, b: Database) -> bool {
    &&& a.rooms@ == b.rooms@
    &&& a.racks@ == b.racks@
    &&& a.device_models@ == b.device_models@
    &&& a.settings@ == b.settings@
    &&& a.next_room_id == b.next_room_id
    &&& a.next_rack_id == b.next_rack_id
    &&& a.next_model_id == b.next_model_id
}

/// True when the device with `id` is in `ds` and in use.
pub open spec fn soft_delete_hits(ds: Seq<Device>, id: i32) -> bool {
    let p = id_pos(device_ids(ds), id);
    p >= 0 && is_active(ds[p])
}

/// `ds` after moving the device with `id` to the recycle bin at `now`
/// (unchanged when it is missing or already there).
pub open spec fn soft_delete_seq(ds: Seq<Device>, id: i32, now: String) -> Seq<Device> {
    let p = id_pos(device_ids(ds), id);
    if soft_delete_hits(ds, id) {
        ds.update(p, Device { deleted_at: Some(now), updated_at: Some(now), ..ds[p] })
    } else {
        ds
    }
}

proof fn lemma_same_ids_keep_wf(old_db: Database, new_db: Database)
    requires
        old_db.wf(),
        same_but_devices(old_db, new_db),
        new_db.next_device_id == old_db.next_device_id,
        device_ids(new_db.devices@) == device_ids(old_db.devices@),
        active_numbers_unique(new_db.devices@),
        forall|i: int| 0 <= i < new_db.devices@.len() ==> span_fits(#[trigger] new_db.devices@[i]),
    ensures
        new_db.wf(),
{
}

proof fn lemma_soft_delete_seq_wf(db: Database, id: i32, now: String)
    requires
        db.wf(),
    ensures
        device_ids(soft_delete_seq(db.devices@, id, now)) == device_ids(db.devices@),
        active_numbers_unique(soft_delete_seq(db.devices@, id, now)),
        forall|i: int|
            0 <= i < soft_delete_seq(db.devices@, id, now).len() ==> span_fits(
                #[trigger] soft_delete_seq(db.devices@, id, now)[i],
            ),
        soft_delete_seq(db.devices@, id, now).len() == db.devices@.len(),
{
    lemma_id_pos_range(device_ids(db.devices@), id);
    let ds = db.devices@;
    let ns = soft_delete_seq(ds, id, now);
    assert(device_ids(ns) =~= device_ids(ds));
    assert forall|i: int, j: int|
        0 <= i < ns.len() && 0 <= j < ns.len() && i != j && is_active(ns[i]) && is_active(
            ns[j],
        ) implies {
        &&& (ns[i].serial_no@.len() > 0 ==> ns[i].serial_no@ != ns[j].serial_no@)
        &&& (ns[i].asset_no@.len() > 0 ==> ns[i].asset_no@ != ns[j].asset_no@)
    } by {
        assert(is_active(ds[i]) && is_active(ds[j]));
    }
    assert forall|i: int| 0 <= i < ns.len() implies span_fits(#[trigger] ns[i]) by {
        assert(span_fits(ds[i]));
    }
}

/// Moves the device with `id` to the recycle bin, stamping `deleted_at` and
/// `updated_at` with `now`. Returns whether a device in use was moved; a
/// missing or already deleted device leaves everything unchanged.
pub fn soft_delete_device_at(db: &mut Database, id: i32, now: &String) -> (r: bool)
    requires
        old(db).wf(),
    ensures
        final(db).wf(),
        r == soft_delete_hits(old(db).devices@, id),
        final(db).devices@ == soft_delete_seq(old(db).devices@, id, *now),
        same_but_devices(*old(db), *final(db)),
        final(db).next_device_id == old(db).next_device_id,
{
    proof {
        lemma_id_pos_range(device_ids(db.devices@), id);
        lemma_soft_delete_seq_wf(*db, id, *now);
    }
    match device_position(&db.devices, id) {
        None => false,
        Some(p) => {
            if db.devices[p].deleted_at.is_some() {
                false
            } else {
                let mut d = db.devices[p].clone();
                d.deleted_at = Some(now.clone());
                d.updated_at = Some(now.clone());
                db.devices.set(p, d);
                proof {
                    lemma_same_ids_keep_wf(*old(db), *db);
                }
                true
            }
        }
    }
}

/// Moves the device with `id` to the recycle bin at the current time (see
/// [`soft_delete_device_at`]).
pub fn soft_delete_device(db: &mut Database, id: i32) -> (r: bool)
    requires
        old(db).wf(),
    ensures
        final(db).wf(),
        r == soft_delete_hits(old(db).devices@, id),
        exists|now: String| is_utc_stamp(now@) && final(db).devices@ == soft_delete_seq(old(db).devices@, id, now),
        same_but_devices(*old(db), *final(db)),
        final(db).next_device_id == old(db).next_device_id,
{
    let now = now_iso();
    soft_delete_device_at(db, id, &now)
}

/// Deleting a device is a soft deletion (see [`soft_delete_device`]).
pub fn delete_device(db: &mut Database, id: i32) -> (r: bool)
    requires
        old(db).wf(),
    ensures
        final(db).wf(),
        r == soft_delete_hits(old(db).devices@, id),
        exists|now: String| is_utc_stamp(now@) && final(db).devices@ == soft_delete_seq(old(db).devices@, id, now),
        same_but_devices(*old(db), *final(db)),
        final(db).next_device_id == old(db).next_device_id,
{
    soft_delete_device(db, id)
}

/// The devices table after soft-deleting each id of `ids` in turn.
pub open spec fn batch_seq(ds: Seq<Device>, ids: Seq<i32>, now: String) -> Seq<Device>
    decreases ids.len(),
{
    if ids.len() == 0 {
        ds
    } else {
        soft_delete_seq(batch_seq(ds, ids.drop_last(), now), ids.last(), now)
    }
}

/// How many of the ids, taken in turn, moved a device to the recycle bin.
pub open spec fn batch_deleted(ds: Seq<Device>, ids: Seq<i32>, now: String) -> nat
    decreases ids.len(),
{
    if ids.len() == 0 {
        0
    } else {
        let prev = batch_seq(ds, ids.drop_last(), now);
        batch_deleted(ds, ids.drop_last(), now) + if soft_delete_hits(prev, ids.last()) {
            1nat
        } else {
            0nat
        }
    }
}

/// The ids, in order, that found no device in use when their turn came.
pub open spec fn batch_not_found(ds: Seq<Device>, ids: Seq<i32>, now: String) -> Seq<i32>
    decreases ids.len(),
{
    if ids.len() == 0 {
        Seq::empty()
    } else {
        let prev = batch_seq(ds, ids.drop_last(), now);
        let nf = batch_not_found(ds, ids.drop_last(), now);
        if soft_delete_hits(prev, ids.last()) {
            nf
        } else {
            nf.push(ids.last())
        }
    }
}

/// Number of devices in use.
pub open spec fn active_count(ds: Seq<Device>) -> nat
    decreases ds.len(),
{
    if ds.len() == 0 {
        0
    } else {
        active_count(ds.drop_last()) + if is_active(ds.last()) {
            1nat
        } else {
            0nat
        }
    }
}

proof fn lemma_active_count_le(ds: Seq<Device>)
    ensures
        active_count(ds) <= ds.len(),
    decreases ds.len(),
{
    if ds.len() > 0 {
        lemma_active_count_le(ds.drop_last());
    }
}

proof fn lemma_active_count_update(ds: Seq<Device>, p: int, d: Device)
    requires
        0 <= p < ds.len(),
    ensures
        active_count(ds.update(p, d)) + (if is_active(ds[p]) {
            1int
        } else {
            0int
        }) == active_count(ds) + (if is_active(d) {
            1int
        } else {
            0int
        }),
    decreases ds.len(),
{
    if p < ds.len() - 1 {
        assert(ds.update(p, d).drop_last() =~= ds.drop_last().update(p, d));
        lemma_active_count_update(ds.drop_last(), p, d);
    } else {
        assert(ds.update(p, d).drop_last() =~= ds.drop_last());
    }
}

pub proof fn lemma_ids_len_bound(ids: Seq<i32>, next: i64)
    requires
        ids_increasing(ids),
        ids_bounded(ids, next),
    ensures
        ids.len() <= i32::MAX,
{
    if ids.len() > 0 {
        assert forall|k: int| 0 <= k < ids.len() implies ids[k] >= k + 1 by {
            lemma_ids_lower(ids, next, k);
        }
        assert(ids[ids.len() - 1] >= ids.len());
    }
}

proof fn lemma_ids_lower(ids: Seq<i32>, next: i64, k: int)
    requires
        ids_increasing(ids),
        ids_bounded(ids, next),
        0 <= k < ids.len(),
    ensures
        ids[k] >= k + 1,
    decreases k,
{
    if k > 0 {
        lemma_ids_lower(ids, next, k - 1);
    }
}

/// Soft-deletes each id of `ids` in turn, at `now` (ids that appear twice
/// find their device already deleted the second time). Returns how many
/// devices were moved to the recycle bin and, in order, the ids that found
/// none in use.
pub fn delete_devices_batch_at(db: &mut Database, ids: &[i32], now: &String) -> (r: (u32, Vec<i32>))
    requires
        old(db).wf(),
    ensures
        final(db).wf(),
        final(db).devices@ == batch_seq(old(db).devices@, ids@, *now),
        r.0 == batch_deleted(old(db).devices@, ids@, *now),
        r.1@ == batch_not_found(old(db).devices@, ids@, *now),
        same_but_devices(*old(db), *final(db)),
        final(db).next_device_id == old(db).next_device_id,
{
    let mut deleted: u32 = 0;
    let mut not_found: Vec<i32> = Vec::new();
    let mut i: usize = 0;
    proof {
        lemma_active_count_le(db.devices@);
        lemma_ids_len_bound(device_ids(db.devices@), db.next_device_id);
    }
    while i < ids.len()
        invariant
            i <= ids@.len(),
            db.wf(),
            db.devices@ == batch_seq(old(db).devices@, ids@.take(i as int), *now),
            deleted == batch_deleted(old(db).devices@, ids@.take(i as int), *now),
            not_found@ == batch_not_found(old(db).devices@, ids@.take(i as int), *now),
            deleted + active_count(db.devices@) == active_count(old(db).devices@),
            active_count(old(db).devices@) <= i32::MAX,
            same_but_devices(*old(db), *db),
            db.next_device_id == old(db).next_device_id,
        decreases ids.len() - i,
    {
        let id = ids[i];
        let ghost before = db.devices@;
        assert(ids@.take(i + 1).drop_last() =~= ids@.take(i as int));
        assert(ids@.take(i + 1).last() == id);
        proof {
            lemma_id_pos_range(device_ids(before), id);
            if soft_delete_hits(before, id) {
                let p = id_pos(device_ids(before), id);
                lemma_active_count_update(before, p, Device { deleted_at: Some(*now), updated_at: Some(*now), ..before[p] });
            }
        }
        if soft_delete_device_at(db, id, now) {
            deleted = deleted + 1;
        } else {
            not_found.push(id);
        }
        i = i + 1;
    }
    assert(ids@.take(ids@.len() as int) =~= ids@);
    (deleted, not_found)
}

/// Soft-deletes each id in turn at the current time (see
/// [`delete_devices_batch_at`]).
pub fn delete_devices_batch(db: &mut Database, ids: &[i32]) -> (r: (u32, Vec<i32>))
    requires
        old(db).wf(),
    ensures
        final(db).wf(),
        exists|now: String| is_utc_stamp(now@) &&
            {
                &&& final(db).devices@ == batch_seq(old(db).devices@, ids@, now)
                &&& r.0 == batch_deleted(old(db).devices@, ids@, now)
                &&& r.1@ == batch_not_found(old(db).devices@, ids@, now)
            },
        same_but_devices(*old(db), *final(db)),
        final(db).next_device_id == old(db).next_device_id,
{
    let now = now_iso();
    delete_devices_batch_at(db, ids, &now)
}

/// True when the device with `id` is in the recycle bin.
pub open spec fn purge_hits(ds: Seq<Device>, id: i32) -> bool {
    let p = id_pos(device_ids(ds), id);
    p >= 0 && !is_active(ds[p])
}

/// Removes for good a device that is in the recycle bin. Returns whether one
/// was removed; a device in use is never touched.
pub fn purge_device(db: &mut Database, id: i32) -> (r: bool)
    requires
        old(db).wf(),
    ensures
        final(db).wf(),
        r == purge_hits(old(db).devices@, id),
        r ==> final(db).devices@ == old(db).devices@.remove(
            id_pos(device_ids(old(db).devices@), id),
        ),
        !r ==> final(db).devices@ == old(db).devices@,
        same_but_devices(*old(db), *final(db)),
        final(db).next_device_id == old(db).next_device_id,
{
    proof {
        lemma_id_pos_range(device_ids(db.devices@), id);
    }
    match device_position(&db.devices, id) {
        None => false,
        Some(p) => {
            if db.devices[p].deleted_at.is_none() {
                false
            } else {
                let ghost before = db.devices@;
                db.devices.remove(p);
                proof {
                    let ns = db.devices@;
                    assert(device_ids(ns) =~= device_ids(before).remove(p as int));
                    assert forall|a: int, b: int|
                        0 <= a < b < device_ids(ns).len() implies device_ids(ns)[a] < device_ids(
                        ns,
                    )[b] by {
                        let a2 = if a < p { a } else { a + 1 };
                        let b2 = if b < p { b } else { b + 1 };
                        assert(device_ids(before)[a2] < device_ids(before)[b2]);
                    }
                    assert forall|k: int| 0 <= k < device_ids(ns).len() implies 1 <= #[trigger] device_ids(ns)[k]
                        < db.next_device_id by {
                        let k2 = if k < p { k } else { k + 1 };
                        assert(device_ids(ns)[k] == device_ids(before)[k2]);
                    }
                    assert forall|a: int, b: int|
                        0 <= a < ns.len() && 0 <= b < ns.len() && a != b && is_active(ns[a])
                            && is_active(ns[b]) implies {
                        &&& (ns[a].serial_no@.len() > 0 ==> ns[a].serial_no@ != ns[b].serial_no@)
                        &&& (ns[a].asset_no@.len() > 0 ==> ns[a].asset_no@ != ns[b].asset_no@)
                    } by {
                        let a2 = if a < p { a } else { a + 1 };
                        let b2 = if b < p { b } else { b + 1 };
                        assert(ns[a] == before[a2] && ns[b] == before[b2]);
                    }
                    assert forall|k: int| 0 <= k < ns.len() implies span_fits(#[trigger] ns[k]) by {
                        let k2 = if k < p { k } else { k + 1 };
                        assert(ns[k] == before[k2]);
                    }
                }
                true
            }
        }
    }
}


// ---------------------------------------------------------------------------
// Placement rules
// ---------------------------------------------------------------------------

/// The message for a slot range in a rack that does not exist.
pub open spec fn missing_rack_message(rid: int) -> Seq<char> {
    "所属机柜不存在（id="@ + int_text(rid) + "），无法安置 U 位"@
}

/// The message for a range that ends above the top of its rack.
pub open spec fn too_tall_message(e: int, name: Seq<char>, h: int) -> Seq<char> {
    "结束U位("@ + int_text(e) + ")超出机柜「"@ + name + "」高度("@ + int_text(h) + "U)"@
}

/// With a rack and both ends given: the rack must exist and the end may not
/// exceed its height.
pub open spec fn boundary_error(db: Database, rack_id: Option<i32>, start_u: Option<i32>, end_u: Option<i32>) -> Option<Seq<char>> {
    if rack_id is Some && start_u is Some && end_u is Some {
        let p = id_pos(rack_ids(db.racks@), rack_id->0);
        if p < 0 {
            Some(missing_rack_message(rack_id->0 as int))
        } else if end_u->0 > db.racks@[p].height_u {
            Some(too_tall_message(end_u->0 as int, db.racks@[p].name@, db.racks@[p].height_u as int))
        } else {
            None
        }
    } else {
        None
    }
}

/// True when `d` is in use in rack `rid`, has both ends, is not `exclude`,
/// and its range meets `s..=e`.
pub open spec fn overlaps(d: Device, exclude: i32, rid: i32, s: i32, e: i32) -> bool {
    &&& is_active(d)
    &&& d.rack_id == Some(rid)
    &&& d.start_u is Some
    &&& d.end_u is Some
    &&& d.start_u->0 <= e
    &&& s <= d.end_u->0
    &&& d.id != exclude
}

/// The first device (in id order) whose range meets `s..=e` in rack `rid`.
pub open spec fn first_overlap(ds: Seq<Device>, exclude: i32, rid: i32, s: i32, e: i32) -> Option<Device>
    decreases ds.len(),
{
    if ds.len() == 0 {
        None
    } else if overlaps(ds[0], exclude, rid, s, e) {
        Some(ds[0])
    } else {
        first_overlap(ds.drop_first(), exclude, rid, s, e)
    }
}

/// The message for two ranges that meet.
pub open spec fn overlap_message(s: int, e: int, name: Seq<char>, s2: int, e2: int) -> Seq<char> {
    "U 位 "@ + int_text(s) + "-"@ + int_text(e) + " 与设备「"@ + name + "」(U"@ + int_text(s2) + "-"@
        + int_text(e2) + ") 重叠，请更换位置"@
}

/// The id that an optional exclusion stands for (-1: none, as no id is -1).
pub open spec fn exclusion(exclude_id: Option<i32>) -> i32 {
    if exclude_id is Some {
        exclude_id->0
    } else {
        -1i32
    }
}

/// With a rack and both ends given: no other device in use in that rack may
/// have a range that meets this one (devices in the recycle bin hold no
/// slots).
pub open spec fn overlap_error(db: Database, exclude_id: Option<i32>, rack_id: Option<i32>, start_u: Option<i32>, end_u: Option<i32>) -> Option<Seq<char>> {
    if rack_id is Some && start_u is Some && end_u is Some {
        match first_overlap(db.devices@, exclusion(exclude_id), rack_id->0, start_u->0, end_u->0) {
            Some(d) => Some(overlap_message(start_u->0 as int, end_u->0 as int, d.name@, d.start_u->0 as int, d.end_u->0 as int)),
            None => None,
        }
    } else {
        None
    }
}

/// The first rule a device input breaks: slot range, rack height, overlap,
/// IP list, status, in that order.
pub open spec fn input_failure(db: Database, exclude_id: Option<i32>, rack_id: Option<i32>, start_u: Option<i32>, end_u: Option<i32>, ip: Option<Seq<char>>, status: Seq<char>) -> Option<Failure> {
    if u_range_error(start_u, end_u) is Some {
        Some(Failure::Validation(u_range_error(start_u, end_u)->0))
    } else if boundary_error(db, rack_id, start_u, end_u) is Some {
        Some(Failure::Validation(boundary_error(db, rack_id, start_u, end_u)->0))
    } else if overlap_error(db, exclude_id, rack_id, start_u, end_u) is Some {
        Some(Failure::Conflict(overlap_error(db, exclude_id, rack_id, start_u, end_u)->0))
    } else if ip is Some && ip_list_error(ip->0) is Some {
        Some(Failure::Validation(bad_ip_message(ip_list_error(ip->0)->0)))
    } else if !is_device_status(status) {
        Some(Failure::Validation(bad_status_message(status)))
    } else {
        None
    }
}

/// With a rack and both ends given, the rack must exist and the end may not
/// exceed its height.
pub fn validate_u_boundary(db: &Database, rack_id: Option<i32>, start_u: Option<i32>, end_u: Option<i32>) -> (r: Result<(), AppError>)
    requires
        db.wf(),
    ensures
        match boundary_error(*db, rack_id, start_u, end_u) {
            None => r is Ok,
            Some(m) => r matches Err(e) && is_validation(e, m),
        },
{
    if let (Some(rid), Some(_s), Some(e)) = (rack_id, start_u, end_u) {
        proof {
            lemma_id_pos_range(rack_ids(db.racks@), rid);
        }
        match rack_position(&db.racks, rid) {
            None => {
                let t = int_to_text(rid as i64);
                let m = concat3("所属机柜不存在（id=", t.as_str(), "），无法安置 U 位");
                Err(AppError::validation(m.as_str()))
            },
            Some(p) => {
                let rack = &db.racks[p];
                if e > rack.height_u {
                    let te = int_to_text(e as i64);
                    let th = int_to_text(rack.height_u as i64);
                    let a = concat3("结束U位(", te.as_str(), ")超出机柜「");
                    let b = concat3(a.as_str(), rack.name.as_str(), "」高度(");
                    let m = concat3(b.as_str(), th.as_str(), "U)");
                    Err(AppError::validation(m.as_str()))
                } else {
                    Ok(())
                }
            },
        }
    } else {
        Ok(())
    }
}

fn find_overlap(ds: &Vec<Device>, exclude: i32, rid: i32, s: i32, e: i32) -> (r: Option<usize>)
    ensures
        match r {
            Some(k) => k < ds@.len() && overlaps(ds@[k as int], exclude, rid, s, e) && first_overlap(
                ds@,
                exclude,
                rid,
                s,
                e,
            ) == Some(ds@[k as int]),
            None => first_overlap(ds@, exclude, rid, s, e) is None,
        },
{
    let mut i: usize = 0;
    assert(ds@.skip(0) =~= ds@);
    while i < ds.len()
        invariant
            i <= ds@.len(),
            first_overlap(ds@, exclude, rid, s, e) == first_overlap(ds@.skip(i as int), exclude, rid, s, e),
        decreases ds.len() - i,
    {
        let d = &ds[i];
        assert(ds@.skip(i as int)[0] == ds@[i as int]);
        assert(ds@.skip(i as int).drop_first() =~= ds@.skip(i + 1));
        let hit = match (d.start_u, d.end_u) {
            (Some(s2), Some(e2)) => d.deleted_at.is_none() && d.rack_id == Some(rid) && s2 <= e && s <= e2 && d.id != exclude,
            _ => false,
        };
        if hit {
            return Some(i);
        }
        i = i + 1;
    }
    None
}

/// With a rack and both ends given, the range may not meet that of another
/// device in use in the same rack (`exclude_id`: the device being moved).
pub fn validate_u_overlap(db: &Database, exclude_id: Option<i32>, rack_id: Option<i32>, start_u: Option<i32>, end_u: Option<i32>) -> (r: Result<(), AppError>)
    ensures
        match overlap_error(*db, exclude_id, rack_id, start_u, end_u) {
            None => r is Ok,
            Some(m) => r matches Err(e) && is_conflict(e, m),
        },
{
    if let (Some(rid), Some(s), Some(e)) = (rack_id, start_u, end_u) {
        let exclude = match exclude_id {
            Some(x) => x,
            None => -1,
        };
        match find_overlap(&db.devices, exclude, rid, s, e) {
            None => Ok(()),
            Some(k) => {
                let d = &db.devices[k];
                let s2 = d.start_u.unwrap();
                let e2 = d.end_u.unwrap();
                let ts = int_to_text(s as i64);
                let te = int_to_text(e as i64);
                let ts2 = int_to_text(s2 as i64);
                let te2 = int_to_text(e2 as i64);
                let a = concat3("U 位 ", ts.as_str(), "-");
                let b = concat3(a.as_str(), te.as_str(), " 与设备「");
                let c = concat3(b.as_str(), d.name.as_str(), "」(U");
                let f = concat3(c.as_str(), ts2.as_str(), "-");
                let m = concat3(f.as_str(), te2.as_str(), ") 重叠，请更换位置");
                Err(AppError::conflict(m.as_str()))
            },
        }
    } else {
        Ok(())
    }
}

/// The single entry of the input rules for creating and updating devices:
/// slot range, rack height, overlap (`exclude_id`: the device itself when
/// it is updated), IP list when given, status.
pub fn validate_device_input(db: &Database, exclude_id: Option<i32>, rack_id: Option<i32>, start_u: Option<i32>, end_u: Option<i32>, ip_addresses: Option<&str>, status: &str) -> (r: Result<(), AppError>)
    requires
        db.wf(),
    ensures
        match input_failure(*db, exclude_id, rack_id, start_u, end_u, match ip_addresses { Some(x) => Some(x@), None => None }, status@) {
            None => r is Ok,
            Some(f) => r matches Err(e) && failure_is(e, f),
        },
{
    validate_u_range(start_u, end_u)?;
    validate_u_boundary(db, rack_id, start_u, end_u)?;
    validate_u_overlap(db, exclude_id, rack_id, start_u, end_u)?;
    if let Some(ip) = ip_addresses {
        validate_ip_addresses(ip)?;
    }
    validate_status(status)?;
    Ok(())
}


// ---------------------------------------------------------------------------
// Creation
// ---------------------------------------------------------------------------

/// The text of an optional string (empty when absent).
pub open spec fn opt_text(o: Option<String>) -> Seq<char> {
    match o {
        Some(s) => s@,
        None => Seq::empty(),
    }
}

/// The status a new device receives: the given one, else `unconfigured`.
pub open spec fn create_status(data: DeviceCreate) -> Seq<char> {
    match data.status {
        Some(s) => s@,
        None => "unconfigured"@,
    }
}

/// The date an optional text stands for.
pub open spec fn opt_date(o: Option<String>) -> Option<Date> {
    match o {
        Some(s) => date_of_text(s@),
        None => None,
    }
}

/// The height of a device: an explicit height of at least 1, else the height
/// of a well-formed slot range, else the height of its model when that is at
/// least 1, else 1.
pub open spec fn resolved_height(db: Database, explicit: Option<i32>, start_u: Option<i32>, end_u: Option<i32>, model_id: Option<i32>) -> int {
    if explicit is Some && explicit->0 >= 1 {
        explicit->0 as int
    } else if start_u is Some && end_u is Some && end_u->0 >= start_u->0 {
        end_u->0 - start_u->0 + 1
    } else if model_id is Some && id_pos(model_ids(db.device_models@), model_id->0) >= 0
        && db.device_models@[id_pos(model_ids(db.device_models@), model_id->0)].height_u >= 1 {
        db.device_models@[id_pos(model_ids(db.device_models@), model_id->0)].height_u as int
    } else {
        1
    }
}

fn resolve_device_height(db: &Database, explicit: Option<i32>, start_u: Option<i32>, end_u: Option<i32>, device_model_id: Option<i32>) -> (r: i32)
    requires
        db.wf(),
        start_u is Some && end_u is Some && end_u->0 >= start_u->0 ==> end_u->0 - start_u->0 + 1 <= i32::MAX,
    ensures
        r == resolved_height(*db, explicit, start_u, end_u, device_model_id),
{
    if let Some(h) = explicit {
        if h >= 1 {
            return h;
        }
    }
    if let (Some(s), Some(e)) = (start_u, end_u) {
        if e >= s {
            return e - s + 1;
        }
    }
    if let Some(mid) = device_model_id {
        proof {
            lemma_id_pos_range(model_ids(db.device_models@), mid);
        }
        if let Some(p) = model_position(&db.device_models, mid) {
            let h = db.device_models[p].height_u;
            if h >= 1 {
                return h;
            }
        }
    }
    1
}

/// The text of the schema's uniqueness failure on serial numbers.
pub open spec fn serial_unique_text() -> Seq<char> {
    "UNIQUE constraint failed: devices.serial_no"@
}

/// The text of the schema's uniqueness failure on asset numbers.
pub open spec fn asset_unique_text() -> Seq<char> {
    "UNIQUE constraint failed: devices.asset_no"@
}

/// The text of a broken reference to another table.
pub open spec fn foreign_key_text() -> Seq<char> {
    "FOREIGN KEY constraint failed"@
}

/// Why creating a device fails: an input rule, then the schema (serial and
/// asset numbers unique among devices in use, rack and model must exist),
/// then an id beyond the `i32` range.
pub open spec fn create_failure(db: Database, data: DeviceCreate) -> Option<Failure> {
    let ip = match data.ip_addresses { Some(x) => Some(x@), None => None };
    let serial = opt_text(data.serial_no);
    let asset = opt_text(data.asset_no);
    if input_failure(db, None, data.rack_id, data.start_u, data.end_u, ip, create_status(data)) is Some {
        input_failure(db, None, data.rack_id, data.start_u, data.end_u, ip, create_status(data))
    } else if first_active_serial(db.devices@, serial, -1i32) is Some {
        Some(Failure::Database(serial_unique_text()))
    } else if first_active_asset(db.devices@, asset, -1i32) is Some {
        Some(Failure::Database(asset_unique_text()))
    } else if data.rack_id is Some && id_pos(rack_ids(db.racks@), data.rack_id->0) < 0 {
        Some(Failure::Database(foreign_key_text()))
    } else if data.device_model_id is Some && id_pos(model_ids(db.device_models@), data.device_model_id->0) < 0 {
        Some(Failure::Database(foreign_key_text()))
    } else if db.next_device_id > i32::MAX {
        Some(Failure::Missing("设备"@))
    } else {
        None
    }
}

/// True when `d` is the device that creating `data` in `db` at `now` makes.
pub open spec fn is_created_device(d: Device, db: Database, data: DeviceCreate, now: String) -> bool {
    &&& d.id == db.next_device_id
    &&& d.name == data.name
    &&& d.device_model_id == data.device_model_id
    &&& d.rack_id == data.rack_id
    &&& d.start_u == data.start_u
    &&& d.end_u == data.end_u
    &&& d.ip_addresses@ == opt_text(data.ip_addresses)
    &&& d.serial_no@ == opt_text(data.serial_no)
    &&& d.asset_no@ == opt_text(data.asset_no)
    &&& d.department@ == opt_text(data.department)
    &&& d.owner@ == opt_text(data.owner)
    &&& d.function@ == opt_text(data.function)
    &&& d.purchase_date == opt_date(data.purchase_date)
    &&& d.warranty_expire == opt_date(data.warranty_expire)
    &&& d.status@ == create_status(data)
    &&& d.power_watt == (if data.power_watt is Some { data.power_watt->0 } else { 0 })
    &&& d.height_u == resolved_height(db, data.height_u, data.start_u, data.end_u, data.device_model_id)
    &&& d.created_at == Some(now)
    &&& d.updated_at == Some(now)
    &&& d.deleted_at is None
}

fn text_or_empty(o: &Option<String>) -> (r: String)
    ensures
        r@ == opt_text(*o),
{
    match o {
        Some(s) => s.clone(),
        None => String::new(),
    }
}

/// What creating a device from `data` in `a` at `now` gives: the failure
/// of the first rule broken, with nothing changed; else the new device
/// appended with the next id.
pub open spec fn device_inserted(a: Database, b: Database, data: DeviceCreate, now: String, r: Result<Device, AppError>) -> bool {
    match create_failure(a, data) {
        Some(f) => r matches Err(e) && failure_is(e, f) && b == a,
        None => r matches Ok(d) && is_created_device(d, a, data, now)
            && b.devices@ == a.devices@.push(d)
            && b.next_device_id == a.next_device_id + 1
            && same_but_devices(a, b),
    }
}

/// Creates a device at `now` after the input rules (the final line of
/// defence for forms, imports and drag-and-drop). The new device takes the
/// next id, `created_at = updated_at = now`, the given status or
/// `unconfigured`, and a derived height when none is given. On failure the
/// database is unchanged.
pub fn insert_device_at(db: &mut Database, data: &DeviceCreate, now: &String) -> (r: Result<Device, AppError>)
    requires
        old(db).wf(),
    ensures
        final(db).wf(),
        device_inserted(*old(db), *final(db), *data, *now, r),
{
    let status: String = match &data.status {
        Some(s) => s.clone(),
        None => owned("unconfigured"),
    };
    let ip = match &data.ip_addresses {
        Some(x) => Some(x.as_str()),
        None => None,
    };
    validate_device_input(db, None, data.rack_id, data.start_u, data.end_u, ip, status.as_str())?;
    let serial = text_or_empty(&data.serial_no);
    let asset = text_or_empty(&data.asset_no);
    if find_device_by_serial(db, serial.as_str()).is_some() {
        return Err(AppError::database("UNIQUE constraint failed: devices.serial_no"));
    }
    if find_device_by_asset(db, asset.as_str()).is_some() {
        return Err(AppError::database("UNIQUE constraint failed: devices.asset_no"));
    }
    if let Some(rid) = data.rack_id {
        if rack_position(&db.racks, rid).is_none() {
            return Err(AppError::database("FOREIGN KEY constraint failed"));
        }
    }
    if let Some(mid) = data.device_model_id {
        if model_position(&db.device_models, mid).is_none() {
            return Err(AppError::database("FOREIGN KEY constraint failed"));
        }
    }
    if db.next_device_id > i32::MAX as i64 {
        return Err(AppError::not_found("设备"));
    }
    let height_u = resolve_device_height(db, data.height_u, data.start_u, data.end_u, data.device_model_id);
    let id = db.next_device_id as i32;
    let d = Device {
        id,
        name: data.name.clone(),
        device_model_id: data.device_model_id,
        rack_id: data.rack_id,
        start_u: data.start_u,
        end_u: data.end_u,
        ip_addresses: text_or_empty(&data.ip_addresses),
        serial_no: serial,
        asset_no: asset,
        department: text_or_empty(&data.department),
        owner: text_or_empty(&data.owner),
        function: text_or_empty(&data.function),
        purchase_date: parse_optional_date(&data.purchase_date),
        warranty_expire: parse_optional_date(&data.warranty_expire),
        status,
        power_watt: match data.power_watt {
            Some(w) => w,
            None => 0,
        },
        height_u,
        created_at: Some(now.clone()),
        updated_at: Some(now.clone()),
        deleted_at: None,
    };
    let ghost before = db.devices@;
    db.devices.push(d.clone());
    db.next_device_id = db.next_device_id + 1;
    proof {
        lemma_push_keeps_wf(*old(db), *db, d);
    }
    Ok(d)
}

proof fn lemma_first_active_serial_none(ds: Seq<Device>, sn: Seq<char>, exclude: i32, k: int)
    requires
        first_active_serial(ds, sn, exclude) is None,
        0 <= k < ds.len(),
        is_active(ds[k]),
        sn.len() > 0,
        ds[k].id != exclude,
    ensures
        ds[k].serial_no@ != sn,
    decreases ds.len(),
{
    if k > 0 {
        lemma_first_active_serial_none(ds.drop_first(), sn, exclude, k - 1);
    }
}

proof fn lemma_first_active_asset_none(ds: Seq<Device>, an: Seq<char>, exclude: i32, k: int)
    requires
        first_active_asset(ds, an, exclude) is None,
        0 <= k < ds.len(),
        is_active(ds[k]),
        an.len() > 0,
        ds[k].id != exclude,
    ensures
        ds[k].asset_no@ != an,
    decreases ds.len(),
{
    if k > 0 {
        lemma_first_active_asset_none(ds.drop_first(), an, exclude, k - 1);
    }
}

proof fn lemma_push_keeps_wf(old_db: Database, new_db: Database, d: Device)
    requires
        old_db.wf(),
        same_but_devices(old_db, new_db),
        new_db.devices@ == old_db.devices@.push(d),
        new_db.next_device_id == old_db.next_device_id + 1,
        d.id == old_db.next_device_id,
        old_db.next_device_id <= i32::MAX,
        first_active_serial(old_db.devices@, d.serial_no@, -1i32) is None,
        first_active_asset(old_db.devices@, d.asset_no@, -1i32) is None,
        span_fits(d),
    ensures
        new_db.wf(),
{
    let os = old_db.devices@;
    let ns = new_db.devices@;
    assert(device_ids(ns) =~= device_ids(os).push(d.id));
    assert forall|i: int, j: int|
        0 <= i < ns.len() && 0 <= j < ns.len() && i != j && is_active(ns[i]) && is_active(ns[j]) implies {
        &&& (ns[i].serial_no@.len() > 0 ==> ns[i].serial_no@ != ns[j].serial_no@)
        &&& (ns[i].asset_no@.len() > 0 ==> ns[i].asset_no@ != ns[j].asset_no@)
    } by {
        if i == os.len() {
            assert(device_ids(os)[j] == os[j].id);
            if d.serial_no@.len() > 0 {
                lemma_first_active_serial_none(os, d.serial_no@, -1i32, j);
            }
            if d.asset_no@.len() > 0 {
                lemma_first_active_asset_none(os, d.asset_no@, -1i32, j);
            }
        } else if j == os.len() {
            assert(device_ids(os)[i] == os[i].id);
            if ns[i].serial_no@.len() > 0 && ns[i].serial_no@ == d.serial_no@ {
                lemma_first_active_serial_none(os, d.serial_no@, -1i32, i);
            }
            if ns[i].asset_no@.len() > 0 && ns[i].asset_no@ == d.asset_no@ {
                lemma_first_active_asset_none(os, d.asset_no@, -1i32, i);
            }
        }
    }
    assert forall|k: int| 0 <= k < ns.len() implies span_fits(#[trigger] ns[k]) by {
        if k < os.len() {
            assert(span_fits(os[k]));
        }
    }
}

/// Creates a device at the current time (see [`insert_device_at`]).
pub fn insert_device(db: &mut Database, data: &DeviceCreate) -> (r: Result<Device, AppError>)
    requires
        old(db).wf(),
    ensures
        final(db).wf(),
        match create_failure(*old(db), *data) {
            Some(f) => r matches Err(e) && failure_is(e, f) && *final(db) == *old(db),
            None => r matches Ok(d) && (exists|now: String| is_utc_stamp(now@) && is_created_device(d, *old(db), *data, now))
                && final(db).devices@ == old(db).devices@.push(d)
                && final(db).next_device_id == old(db).next_device_id + 1
                && same_but_devices(*old(db), *final(db)),
        },
{
    let now = now_iso();
    insert_device_at(db, data, &now)
}


// ---------------------------------------------------------------------------
// Three-state update
// ---------------------------------------------------------------------------

/// The value an optional field has after a patch.
pub open spec fn eff_opt(p: Patch<i32>, cur: Option<i32>) -> Option<i32> {
    match p {
        Patch::Assign(v) => Some(v),
        Patch::Clear => None,
        Patch::Unset => cur,
    }
}

fn eff_value(p: &Patch<i32>, cur: Option<i32>) -> (r: Option<i32>)
    ensures
        r == eff_opt(*p, cur),
{
    match p {
        Patch::Assign(v) => Some(*v),
        Patch::Clear => None,
        Patch::Unset => cur,
    }
}

/// True when the update touches the rack or either end of the range.
pub open spec fn spatial_touched(data: DeviceUpdate) -> bool {
    !(data.rack_id is Unset) || !(data.start_u is Unset) || !(data.end_u is Unset)
}

/// The message for an unreadable date in column `col`.
pub open spec fn date_message(col: Seq<char>, s: Seq<char>) -> Seq<char> {
    col + " 日期格式无效: "@ + s + "（支持 YYYY-MM-DD / YYYY/MM/DD / YYYY.MM.DD）"@
}

/// A date patch fails when it gives a non-blank text that no accepted format
/// reads.
pub open spec fn date_patch_error(col: Seq<char>, p: Patch<String>) -> Option<Seq<char>> {
    match p {
        Patch::Assign(s) => if trimmed(s@).len() > 0 && date_of_text(s@) is None {
            Some(date_message(col, s@))
        } else {
            None
        },
        _ => None,
    }
}

/// The date after a date patch: blank texts and `Clear` empty the field.
pub open spec fn date_after(p: Patch<String>, cur: Option<Date>) -> Option<Date> {
    match p {
        Patch::Assign(s) => if trimmed(s@).len() == 0 {
            None
        } else {
            date_of_text(s@)
        },
        Patch::Clear => None,
        Patch::Unset => cur,
    }
}

/// A height patch fails when it clears the height or sets it below 1.
pub open spec fn height_error(p: Patch<i32>) -> Option<Seq<char>> {
    match p {
        Patch::Clear => Some("设备固有高度不能置空"@),
        Patch::Assign(v) => if v < 1 {
            Some("设备固有高度无效: "@ + int_text(v as int) + "（须 ≥ 1）"@)
        } else {
            None
        },
        Patch::Unset => None,
    }
}

/// The height after an update: a set height, else the height of the range
/// the device ends up in when that range is well formed, else the old
/// height (taking a device out of its rack keeps its height).
pub open spec fn height_after(p: Patch<i32>, cur: Device, s: Option<i32>, e: Option<i32>) -> int {
    match p {
        Patch::Assign(v) => v as int,
        _ => if s is Some && e is Some && e->0 >= s->0 {
            e->0 - s->0 + 1
        } else {
            cur.height_u as int
        },
    }
}

/// True when an update changes at least one column (texts, numbers, dates,
/// or a height set or synchronised with a new range).
pub open spec fn has_assignment(data: DeviceUpdate, cur: Device) -> bool {
    let s = eff_opt(data.start_u, cur.start_u);
    let e = eff_opt(data.end_u, cur.end_u);
    ||| !(data.name is Unset)
    ||| !(data.device_model_id is Unset)
    ||| !(data.rack_id is Unset)
    ||| !(data.start_u is Unset)
    ||| !(data.end_u is Unset)
    ||| !(data.ip_addresses is Unset)
    ||| !(data.serial_no is Unset)
    ||| !(data.asset_no is Unset)
    ||| !(data.department is Unset)
    ||| !(data.owner is Unset)
    ||| !(data.function is Unset)
    ||| !(data.status is Unset)
    ||| !(data.power_watt is Unset)
    ||| !(data.purchase_date is Unset)
    ||| !(data.warranty_expire is Unset)
    ||| data.height_u is Assign
    ||| (data.height_u is Unset && s is Some && e is Some && e->0 >= s->0 && e->0 - s->0 + 1
        != cur.height_u)
}

/// The text of a text column after a patch (`Clear` reads back as empty).
pub open spec fn text_after(p: Patch<String>, cur: String) -> Seq<char> {
    match p {
        Patch::Assign(v) => v@,
        Patch::Clear => Seq::empty(),
        Patch::Unset => cur@,
    }
}

/// The text of the schema's refusal of an empty name.
pub open spec fn name_not_null_text() -> Seq<char> {
    "NOT NULL constraint failed: devices.name"@
}

/// Why updating the device at position `p` fails: a new IP list, a new
/// status, the placement rules when rack or range are touched (the device
/// itself excluded from the overlap rule), the dates, the height; then,
/// when anything is to change, the schema (name not null, numbers unique
/// among devices in use, references that exist).
pub open spec fn update_failure(db: Database, p: int, data: DeviceUpdate) -> Option<Failure> {
    let cur = db.devices@[p];
    let id = cur.id;
    let rack = eff_opt(data.rack_id, cur.rack_id);
    let s = eff_opt(data.start_u, cur.start_u);
    let e = eff_opt(data.end_u, cur.end_u);
    if data.ip_addresses is Assign && ip_list_error(data.ip_addresses->0@) is Some {
        Some(Failure::Validation(bad_ip_message(ip_list_error(data.ip_addresses->0@)->0)))
    } else if data.status is Assign && !is_device_status(data.status->0@) {
        Some(Failure::Validation(bad_status_message(data.status->0@)))
    } else if spatial_touched(data) && u_range_error(s, e) is Some {
        Some(Failure::Validation(u_range_error(s, e)->0))
    } else if spatial_touched(data) && boundary_error(db, rack, s, e) is Some {
        Some(Failure::Validation(boundary_error(db, rack, s, e)->0))
    } else if spatial_touched(data) && overlap_error(db, Some(id), rack, s, e) is Some {
        Some(Failure::Conflict(overlap_error(db, Some(id), rack, s, e)->0))
    } else if date_patch_error("purchase_date"@, data.purchase_date) is Some {
        Some(Failure::Validation(date_patch_error("purchase_date"@, data.purchase_date)->0))
    } else if date_patch_error("warranty_expire"@, data.warranty_expire) is Some {
        Some(Failure::Validation(date_patch_error("warranty_expire"@, data.warranty_expire)->0))
    } else if height_error(data.height_u) is Some {
        Some(Failure::Validation(height_error(data.height_u)->0))
    } else if !has_assignment(data, cur) {
        None
    } else if data.name is Clear {
        Some(Failure::Database(name_not_null_text()))
    } else if is_active(cur) && first_active_serial(db.devices@, text_after(data.serial_no, cur.serial_no), id) is Some {
        Some(Failure::Database(serial_unique_text()))
    } else if is_active(cur) && first_active_asset(db.devices@, text_after(data.asset_no, cur.asset_no), id) is Some {
        Some(Failure::Database(asset_unique_text()))
    } else if data.rack_id is Assign && id_pos(rack_ids(db.racks@), data.rack_id->0) < 0 {
        Some(Failure::Database(foreign_key_text()))
    } else if data.device_model_id is Assign && id_pos(model_ids(db.device_models@), data.device_model_id->0) < 0 {
        Some(Failure::Database(foreign_key_text()))
    } else {
        None
    }
}

/// True when `n` is `cur` after the update `data` at `now`.
pub open spec fn is_updated_device(n: Device, cur: Device, data: DeviceUpdate, now: String) -> bool {
    let s = eff_opt(data.start_u, cur.start_u);
    let e = eff_opt(data.end_u, cur.end_u);
    &&& n.id == cur.id
    &&& n.name@ == (match data.name {
        Patch::Assign(v) => v@,
        _ => cur.name@,
    })
    &&& n.device_model_id == eff_opt(data.device_model_id, cur.device_model_id)
    &&& n.rack_id == eff_opt(data.rack_id, cur.rack_id)
    &&& n.start_u == s
    &&& n.end_u == e
    &&& n.ip_addresses@ == text_after(data.ip_addresses, cur.ip_addresses)
    &&& n.serial_no@ == text_after(data.serial_no, cur.serial_no)
    &&& n.asset_no@ == text_after(data.asset_no, cur.asset_no)
    &&& n.department@ == text_after(data.department, cur.department)
    &&& n.owner@ == text_after(data.owner, cur.owner)
    &&& n.function@ == text_after(data.function, cur.function)
    &&& n.purchase_date == date_after(data.purchase_date, cur.purchase_date)
    &&& n.warranty_expire == date_after(data.warranty_expire, cur.warranty_expire)
    &&& n.status@ == (match data.status {
        Patch::Assign(v) => v@,
        Patch::Clear => "unconfigured"@,
        Patch::Unset => cur.status@,
    })
    &&& n.power_watt == (match data.power_watt {
        Patch::Assign(v) => v,
        Patch::Clear => 0,
        Patch::Unset => cur.power_watt,
    })
    &&& n.height_u == height_after(data.height_u, cur, s, e)
    &&& n.created_at == cur.created_at
    &&& n.deleted_at == cur.deleted_at
    &&& n.updated_at == Some(now)
}

fn text_patched(p: &Patch<String>, cur: &String) -> (r: String)
    ensures
        r@ == text_after(*p, *cur),
{
    match p {
        Patch::Assign(v) => v.clone(),
        Patch::Clear => String::new(),
        Patch::Unset => cur.clone(),
    }
}

fn date_patched(col: &str, p: &Patch<String>, cur: Option<Date>) -> (r: Result<Option<Date>, AppError>)
    ensures
        match date_patch_error(col@, *p) {
            Some(m) => r matches Err(e) && is_validation(e, m),
            None => r == Ok::<Option<Date>, AppError>(date_after(*p, cur)),
        },
{
    match p {
        Patch::Unset => Ok(cur),
        Patch::Clear => Ok(None),
        Patch::Assign(s) => {
            let t = trim_str(s.as_str());
            if t.as_str().is_empty() {
                Ok(None)
            } else {
                match parse_flexible_date(s.as_str()) {
                    Some(d) => Ok(Some(d)),
                    None => {
                        let a = concat3(col, " 日期格式无效: ", s.as_str());
                        let m = concat2(a.as_str(), "（支持 YYYY-MM-DD / YYYY/MM/DD / YYYY.MM.DD）");
                        Err(AppError::validation(m.as_str()))
                    },
                }
            }
        },
    }
}

proof fn lemma_replace_keeps_wf(old_db: Database, new_db: Database, p: int, n: Device)
    requires
        old_db.wf(),
        same_but_devices(old_db, new_db),
        0 <= p < old_db.devices@.len(),
        new_db.devices@ == old_db.devices@.update(p, n),
        new_db.next_device_id == old_db.next_device_id,
        n.id == old_db.devices@[p].id,
        is_active(n) ==> first_active_serial(old_db.devices@, n.serial_no@, n.id) is None,
        is_active(n) ==> first_active_asset(old_db.devices@, n.asset_no@, n.id) is None,
        span_fits(n),
    ensures
        new_db.wf(),
{
    let os = old_db.devices@;
    let ns = new_db.devices@;
    assert(device_ids(ns) =~= device_ids(os));
    assert forall|i: int, j: int|
        0 <= i < ns.len() && 0 <= j < ns.len() && i != j && is_active(ns[i]) && is_active(ns[j]) implies {
        &&& (ns[i].serial_no@.len() > 0 ==> ns[i].serial_no@ != ns[j].serial_no@)
        &&& (ns[i].asset_no@.len() > 0 ==> ns[i].asset_no@ != ns[j].asset_no@)
    } by {
        if i == p {
            assert(device_ids(os)[j] == os[j].id && device_ids(os)[p] == os[p].id);
            assert(os[j].id != n.id);
            if n.serial_no@.len() > 0 {
                lemma_first_active_serial_none(os, n.serial_no@, n.id, j);
            }
            if n.asset_no@.len() > 0 {
                lemma_first_active_asset_none(os, n.asset_no@, n.id, j);
            }
        } else if j == p {
            assert(device_ids(os)[i] == os[i].id && device_ids(os)[p] == os[p].id);
            assert(os[i].id != n.id);
            if ns[i].serial_no@.len() > 0 && ns[i].serial_no@ == n.serial_no@ {
                lemma_first_active_serial_none(os, n.serial_no@, n.id, i);
            }
            if ns[i].asset_no@.len() > 0 && ns[i].asset_no@ == n.asset_no@ {
                lemma_first_active_asset_none(os, n.asset_no@, n.id, i);
            }
        }
    }
    assert forall|k: int| 0 <= k < ns.len() implies span_fits(#[trigger] ns[k]) by {
        if k != p {
            assert(span_fits(os[k]));
        }
    }
}

/// What updating device `id` of `a` with `data` at `now` gives: `Ok(None)`
/// for a missing device; the failure of the first rule broken; the device
/// as it is for an update that changes nothing; else the updated device in
/// its place. Only the last changes the database.
pub open spec fn device_updated(a: Database, b: Database, id: i32, data: DeviceUpdate, now: String, r: Result<Option<Device>, AppError>) -> bool {
    match device_at(a, id) {
        None => r matches Ok(None) && b == a,
        Some(cur) => {
            let p = id_pos(device_ids(a.devices@), id);
            match update_failure(a, p, data) {
                Some(f) => r matches Err(e) && failure_is(e, f) && b == a,
                None => if !has_assignment(data, cur) {
                    r == Ok::<Option<Device>, AppError>(Some(cur)) && b == a
                } else {
                    r matches Ok(Some(n)) && is_updated_device(n, cur, data, now)
                        && b.devices@ == a.devices@.update(p, n)
                        && same_but_devices(a, b)
                        && b.next_device_id == a.next_device_id
                },
            }
        },
    }
}

/// Applies a three-state update to the device `id` at `now`: `Unset` keeps
/// a column, `Assign` sets it, `Clear` empties it. A missing device gives
/// `Ok(None)`. Only a new IP list or status is checked; the placement rules
/// run only when rack or range are touched, so unrelated edits of old data
/// are not blocked. Without a height the height follows a well-formed new
/// range and is kept otherwise. An update that changes nothing returns the
/// device as it is. On failure the database is unchanged.
pub fn update_device_at(db: &mut Database, id: i32, data: &DeviceUpdate, now: &String) -> (r: Result<Option<Device>, AppError>)
    requires
        old(db).wf(),
    ensures
        final(db).wf(),
        device_updated(*old(db), *final(db), id, *data, *now, r),
{
    proof {
        lemma_id_pos_range(device_ids(db.devices@), id);
    }
    let p = match device_position(&db.devices, id) {
        None => return Ok(None),
        Some(p) => p,
    };
    let cur = db.devices[p].clone();
    assert(span_fits(db.devices@[p as int]));
    assert(device_ids(db.devices@)[p as int] == cur.id);
    if let Patch::Assign(ip) = &data.ip_addresses {
        validate_ip_addresses(ip.as_str())?;
    }
    if let Patch::Assign(st) = &data.status {
        validate_status(st.as_str())?;
    }
    let eff_rack = eff_value(&data.rack_id, cur.rack_id);
    let eff_start = eff_value(&data.start_u, cur.start_u);
    let eff_end = eff_value(&data.end_u, cur.end_u);
    let touched = !(data.rack_id.is_unset() && data.start_u.is_unset() && data.end_u.is_unset());
    if touched {
        validate_u_range(eff_start, eff_end)?;
        validate_u_boundary(db, eff_rack, eff_start, eff_end)?;
        validate_u_overlap(db, Some(id), eff_rack, eff_start, eff_end)?;
    }
    let purchase = date_patched("purchase_date", &data.purchase_date, cur.purchase_date)?;
    let warranty = date_patched("warranty_expire", &data.warranty_expire, cur.warranty_expire)?;
    let height: i32 = match &data.height_u {
        Patch::Clear => {
            return Err(AppError::validation("设备固有高度不能置空"));
        },
        Patch::Assign(v) => {
            if *v < 1 {
                let t = int_to_text(*v as i64);
                let m = concat3("设备固有高度无效: ", t.as_str(), "（须 ≥ 1）");
                return Err(AppError::validation(m.as_str()));
            }
            *v
        },
        Patch::Unset => {
            match (eff_start, eff_end) {
                (Some(s), Some(e)) => if e >= s {
                    e - s + 1
                } else {
                    cur.height_u
                },
                _ => cur.height_u,
            }
        },
    };
    let height_synced = match (&data.height_u, eff_start, eff_end) {
        (Patch::Unset, Some(s), Some(e)) => e >= s && e - s + 1 != cur.height_u,
        _ => false,
    };
    let assigned = !data.name.is_unset() || !data.device_model_id.is_unset()
        || !data.rack_id.is_unset() || !data.start_u.is_unset() || !data.end_u.is_unset()
        || !data.ip_addresses.is_unset() || !data.serial_no.is_unset()
        || !data.asset_no.is_unset() || !data.department.is_unset() || !data.owner.is_unset()
        || !data.function.is_unset() || !data.status.is_unset() || !data.power_watt.is_unset()
        || !data.purchase_date.is_unset() || !data.warranty_expire.is_unset() || (match &data.height_u {
        Patch::Assign(_) => true,
        _ => false,
    }) || height_synced;
    if !assigned {
        return Ok(Some(cur));
    }
    let name = match &data.name {
        Patch::Clear => {
            return Err(AppError::database("NOT NULL constraint failed: devices.name"));
        },
        Patch::Assign(v) => v.clone(),
        Patch::Unset => cur.name.clone(),
    };
    let serial = text_patched(&data.serial_no, &cur.serial_no);
    let asset = text_patched(&data.asset_no, &cur.asset_no);
    let active = cur.deleted_at.is_none();
    if active && scan(&db.devices, Probe::Serial, serial.as_str(), id, None).is_some() {
        return Err(AppError::database("UNIQUE constraint failed: devices.serial_no"));
    }
    if active && scan(&db.devices, Probe::Asset, asset.as_str(), id, None).is_some() {
        return Err(AppError::database("UNIQUE constraint failed: devices.asset_no"));
    }
    if let Patch::Assign(rid) = &data.rack_id {
        if rack_position(&db.racks, *rid).is_none() {
            return Err(AppError::database("FOREIGN KEY constraint failed"));
        }
    }
    if let Patch::Assign(mid) = &data.device_model_id {
        if model_position(&db.device_models, *mid).is_none() {
            return Err(AppError::database("FOREIGN KEY constraint failed"));
        }
    }
    let status = match &data.status {
        Patch::Assign(v) => v.clone(),
        Patch::Clear => owned("unconfigured"),
        Patch::Unset => cur.status.clone(),
    };
    let n = Device {
        id: cur.id,
        name,
        device_model_id: eff_value(&data.device_model_id, cur.device_model_id),
        rack_id: eff_rack,
        start_u: eff_start,
        end_u: eff_end,
        ip_addresses: text_patched(&data.ip_addresses, &cur.ip_addresses),
        serial_no: serial,
        asset_no: asset,
        department: text_patched(&data.department, &cur.department),
        owner: text_patched(&data.owner, &cur.owner),
        function: text_patched(&data.function, &cur.function),
        purchase_date: purchase,
        warranty_expire: warranty,
        status,
        power_watt: match &data.power_watt {
            Patch::Assign(v) => *v,
            Patch::Clear => 0,
            Patch::Unset => cur.power_watt,
        },
        height_u: height,
        created_at: copy_opt_string(&cur.created_at),
        updated_at: Some(now.clone()),
        deleted_at: copy_opt_string(&cur.deleted_at),
    };
    db.devices.set(p, n.clone());
    proof {
        lemma_replace_keeps_wf(*old(db), *db, p as int, n);
    }
    Ok(Some(n))
}

/// Applies a three-state update at the current time (see
/// [`update_device_at`]).
pub fn update_device(db: &mut Database, id: i32, data: &DeviceUpdate) -> (r: Result<Option<Device>, AppError>)
    requires
        old(db).wf(),
    ensures
        final(db).wf(),
        device_at(*old(db), id) is None ==> (r matches Ok(None) && *final(db) == *old(db)),
        device_at(*old(db), id) is Some ==> ({
            let p = id_pos(device_ids(old(db).devices@), id);
            let cur = old(db).devices@[p];
            match update_failure(*old(db), p, *data) {
                Some(f) => r matches Err(e) && failure_is(e, f) && *final(db) == *old(db),
                None => if !has_assignment(*data, cur) {
                    r == Ok::<Option<Device>, AppError>(Some(cur)) && *final(db) == *old(db)
                } else {
                    r matches Ok(Some(n)) && (exists|now: String| is_utc_stamp(now@) && is_updated_device(n, cur, *data, now))
                        && final(db).devices@ == old(db).devices@.update(p, n)
                        && same_but_devices(*old(db), *final(db))
                        && final(db).next_device_id == old(db).next_device_id
                },
            }
        }),
{
    let now = now_iso();
    update_device_at(db, id, data, &now)
}


// ---------------------------------------------------------------------------
// Restore from the recycle bin
// ---------------------------------------------------------------------------

/// How long a deleted device may be restored: 30 days, in nanoseconds.
pub open spec fn restore_window_nanos() -> int {
    30int * 86400 * 1_000_000_000
}

/// The message for a serial number taken by another device in use.
pub open spec fn serial_taken_message(sn: Seq<char>, other: Seq<char>) -> Seq<char> {
    "恢复失败：序列号 "@ + sn + " 已被设备「"@ + other + "」占用，请先处理该设备"@
}

/// The message for an asset number taken by another device in use.
pub open spec fn asset_taken_message(an: Seq<char>, other: Seq<char>) -> Seq<char> {
    "恢复失败：资产编号 "@ + an + " 已被设备「"@ + other + "」占用，请先处理该设备"@
}

/// Why restoring the device `id` at time `now` fails: it is missing; it is
/// not deleted; it was deleted more than 30 days before `now` (a deletion
/// time that cannot be read is not held against it); its serial or asset
/// number (when not blank) is taken by another device in use; the schema's
/// uniqueness otherwise.
pub open spec fn restore_failure(db: Database, id: i32, now: Instant) -> Option<Failure> {
    match device_at(db, id) {
        None => Some(Failure::Missing("设备"@)),
        Some(d) => if d.deleted_at is None {
            Some(Failure::Validation("该设备未被删除，无需恢复"@))
        } else if rfc3339_instant(d.deleted_at->0@) is Some && instant_nanos(now) - instant_nanos(
            rfc3339_instant(d.deleted_at->0@)->0,
        ) > restore_window_nanos() {
            Some(Failure::Validation("恢复失败：设备删除已超过 30 天，无法恢复"@))
        } else if trimmed(d.serial_no@).len() > 0 && first_active_serial(db.devices@, d.serial_no@, d.id) is Some {
            Some(Failure::Conflict(serial_taken_message(d.serial_no@, first_active_serial(db.devices@, d.serial_no@, d.id)->0.name@)))
        } else if trimmed(d.asset_no@).len() > 0 && first_active_asset(db.devices@, d.asset_no@, d.id) is Some {
            Some(Failure::Conflict(asset_taken_message(d.asset_no@, first_active_asset(db.devices@, d.asset_no@, d.id)->0.name@)))
        } else if first_active_serial(db.devices@, d.serial_no@, d.id) is Some {
            Some(Failure::Database(serial_unique_text()))
        } else if first_active_asset(db.devices@, d.asset_no@, d.id) is Some {
            Some(Failure::Database(asset_unique_text()))
        } else {
            None
        },
    }
}

/// True when restoring `id` in `old_db` at `now` (stamped `now_text`) gives
/// `r` and leaves `new_db`.
pub open spec fn restore_outcome(old_db: Database, new_db: Database, id: i32, r: Result<Device, AppError>, now: Instant, now_text: String) -> bool {
    match restore_failure(old_db, id, now) {
        Some(f) => r matches Err(e) && failure_is(e, f) && new_db == old_db,
        None => {
            let p = id_pos(device_ids(old_db.devices@), id);
            &&& r matches Ok(d) && d == Device { deleted_at: None, updated_at: Some(now_text), ..old_db.devices@[p] }
            &&& new_db.devices@ == old_db.devices@.update(p, r->Ok_0)
            &&& same_but_devices(old_db, new_db)
            &&& new_db.next_device_id == old_db.next_device_id
        },
    }
}

fn nanos_of(t: Instant) -> (r: i128)
    ensures
        r == instant_nanos(t),
{
    (t.secs as i128) * 1_000_000_000 + (t.nanos as i128)
}

/// Restores the device `id` from the recycle bin, at time `now` stamped as
/// `now_text`: `deleted_at` is cleared and `updated_at` refreshed; nothing
/// is renamed. On failure the database is unchanged.
pub fn restore_device_at(db: &mut Database, id: i32, now: Instant, now_text: &String) -> (r: Result<Device, AppError>)
    requires
        old(db).wf(),
    ensures
        final(db).wf(),
        restore_outcome(*old(db), *final(db), id, r, now, *now_text),
{
    proof {
        lemma_id_pos_range(device_ids(db.devices@), id);
    }
    let p = match device_position(&db.devices, id) {
        None => return Err(AppError::not_found("设备")),
        Some(p) => p,
    };
    let dev = db.devices[p].clone();
    assert(span_fits(db.devices@[p as int]));
    assert(device_ids(db.devices@)[p as int] == dev.id);
    let deleted_at = match &dev.deleted_at {
        None => return Err(AppError::validation("该设备未被删除，无需恢复")),
        Some(t) => t,
    };
    if let Some(t) = parse_rfc3339(deleted_at.as_str()) {
        let age = nanos_of(now) - nanos_of(t);
        if age > 2_592_000_000_000_000i128 {
            return Err(AppError::validation("恢复失败：设备删除已超过 30 天，无法恢复"));
        }
    }
    let serial_blank = trim_str(dev.serial_no.as_str()).as_str().is_empty();
    let asset_blank = trim_str(dev.asset_no.as_str()).as_str().is_empty();
    if !serial_blank {
        if let Some(other) = scan(&db.devices, Probe::Serial, dev.serial_no.as_str(), dev.id, None) {
            let a = concat3("恢复失败：序列号 ", dev.serial_no.as_str(), " 已被设备「");
            let m = concat3(a.as_str(), other.name.as_str(), "」占用，请先处理该设备");
            return Err(AppError::conflict(m.as_str()));
        }
    }
    if !asset_blank {
        if let Some(other) = scan(&db.devices, Probe::Asset, dev.asset_no.as_str(), dev.id, None) {
            let a = concat3("恢复失败：资产编号 ", dev.asset_no.as_str(), " 已被设备「");
            let m = concat3(a.as_str(), other.name.as_str(), "」占用，请先处理该设备");
            return Err(AppError::conflict(m.as_str()));
        }
    }
    if scan(&db.devices, Probe::Serial, dev.serial_no.as_str(), dev.id, None).is_some() {
        return Err(AppError::database("UNIQUE constraint failed: devices.serial_no"));
    }
    if scan(&db.devices, Probe::Asset, dev.asset_no.as_str(), dev.id, None).is_some() {
        return Err(AppError::database("UNIQUE constraint failed: devices.asset_no"));
    }
    let mut n = dev;
    n.deleted_at = None;
    n.updated_at = Some(now_text.clone());
    db.devices.set(p, n.clone());
    proof {
        lemma_replace_keeps_wf(*old(db), *db, p as int, n);
    }
    Ok(n)
}

/// Restores a device at the current time (see [`restore_device_at`]).
pub fn restore_device(db: &mut Database, id: i32) -> (r: Result<Device, AppError>)
    requires
        old(db).wf(),
    ensures
        final(db).wf(),
        exists|now: Instant, now_text: String| is_utc_stamp(now_text@) && #[trigger] restore_outcome(*old(db), *final(db), id, r, now, now_text),
{
    let now = now_instant();
    let text = now_iso();
    restore_device_at(db, id, now, &text)
}


// ---------------------------------------------------------------------------
// Ordering
// ---------------------------------------------------------------------------

/// A column a device listing can be ordered by.
#[derive(Clone, Copy, PartialEq, Eq, Structural, Debug)]
pub enum SortField {
    Name,
    IpAddresses,
    SerialNo,
    AssetNo,
    Status,
    PowerWatt,
    CreatedAt,
    UpdatedAt,
    RackId,
    DeletedAt,
}

/// Strict order of optional texts: absent first, then by text.
pub open spec fn opt_text_before(a: Option<String>, b: Option<String>) -> bool {
    match (a, b) {
        (None, Some(_)) => true,
        (Some(x), Some(y)) => crate::text::text_before(x@, y@),
        _ => false,
    }
}

/// Strict order of optional numbers: absent first, then by value.
pub open spec fn opt_int_before(a: Option<i32>, b: Option<i32>) -> bool {
    match (a, b) {
        (None, Some(_)) => true,
        (Some(x), Some(y)) => x < y,
        _ => false,
    }
}

/// `a`'s value in column `f` comes strictly before `b`'s (texts by code
/// point, absent values first, as SQLite orders them).
pub open spec fn key_before(a: Device, b: Device, f: SortField) -> bool {
    match f {
        SortField::Name => crate::text::text_before(a.name@, b.name@),
        SortField::IpAddresses => crate::text::text_before(a.ip_addresses@, b.ip_addresses@),
        SortField::SerialNo => crate::text::text_before(a.serial_no@, b.serial_no@),
        SortField::AssetNo => crate::text::text_before(a.asset_no@, b.asset_no@),
        SortField::Status => crate::text::text_before(a.status@, b.status@),
        SortField::PowerWatt => a.power_watt < b.power_watt,
        SortField::CreatedAt => opt_text_before(a.created_at, b.created_at),
        SortField::UpdatedAt => opt_text_before(a.updated_at, b.updated_at),
        SortField::RackId => opt_int_before(a.rack_id, b.rack_id),
        SortField::DeletedAt => opt_text_before(a.deleted_at, b.deleted_at),
    }
}

/// `a` is listed before `b` under column `f`, descending when `desc`.
pub open spec fn goes_before(a: Device, b: Device, f: SortField, desc: bool) -> bool {
    if desc {
        key_before(b, a, f)
    } else {
        key_before(a, b, f)
    }
}

fn opt_text_first(a: &Option<String>, b: &Option<String>) -> (r: bool)
    ensures
        r == opt_text_before(*a, *b),
{
    match (a, b) {
        (None, Some(_)) => true,
        (Some(x), Some(y)) => crate::text::str_before(x.as_str(), y.as_str()),
        _ => false,
    }
}

fn key_first(a: &Device, b: &Device, f: SortField) -> (r: bool)
    ensures
        r == key_before(*a, *b, f),
{
    match f {
        SortField::Name => crate::text::str_before(a.name.as_str(), b.name.as_str()),
        SortField::IpAddresses => crate::text::str_before(a.ip_addresses.as_str(), b.ip_addresses.as_str()),
        SortField::SerialNo => crate::text::str_before(a.serial_no.as_str(), b.serial_no.as_str()),
        SortField::AssetNo => crate::text::str_before(a.asset_no.as_str(), b.asset_no.as_str()),
        SortField::Status => crate::text::str_before(a.status.as_str(), b.status.as_str()),
        SortField::PowerWatt => a.power_watt < b.power_watt,
        SortField::CreatedAt => opt_text_first(&a.created_at, &b.created_at),
        SortField::UpdatedAt => opt_text_first(&a.updated_at, &b.updated_at),
        SortField::RackId => match (a.rack_id, b.rack_id) {
            (None, Some(_)) => true,
            (Some(x), Some(y)) => x < y,
            _ => false,
        },
        SortField::DeletedAt => opt_text_first(&a.deleted_at, &b.deleted_at),
    }
}

/// `s` with `d` inserted before the first element it goes before (after
/// all elements it ties with).
pub open spec fn insert_sorted(s: Seq<Device>, d: Device, f: SortField, desc: bool) -> Seq<Device>
    decreases s.len(),
{
    if s.len() == 0 {
        seq![d]
    } else if goes_before(d, s[0], f, desc) {
        seq![d] + s
    } else {
        seq![s[0]] + insert_sorted(s.drop_first(), d, f, desc)
    }
}

/// `s` ordered by column `f` (descending when `desc`); rows that tie keep
/// their order in `s`.
pub open spec fn sorted_by(s: Seq<Device>, f: SortField, desc: bool) -> Seq<Device>
    decreases s.len(),
{
    if s.len() == 0 {
        s
    } else {
        insert_sorted(sorted_by(s.drop_last(), f, desc), s.last(), f, desc)
    }
}

proof fn lemma_insert_sorted_at(s: Seq<Device>, d: Device, f: SortField, desc: bool, p: int)
    requires
        0 <= p <= s.len(),
        forall|k: int| 0 <= k < p ==> !goes_before(d, #[trigger] s[k], f, desc),
        p < s.len() ==> goes_before(d, s[p], f, desc),
    ensures
        insert_sorted(s, d, f, desc) == s.insert(p, d),
    decreases s.len(),
{
    if s.len() == 0 {
        assert(s.insert(p, d) =~= seq![d]);
    } else if p == 0 {
        assert(s.insert(0, d) =~= seq![d] + s);
    } else {
        assert(!goes_before(d, s[0], f, desc));
        assert forall|k: int| 0 <= k < p - 1 implies !goes_before(d, #[trigger] s.drop_first()[k], f, desc) by {
            assert(s.drop_first()[k] == s[k + 1]);
        }
        lemma_insert_sorted_at(s.drop_first(), d, f, desc, p - 1);
        assert(seq![s[0]] + s.drop_first().insert(p - 1, d) =~= s.insert(p, d));
    }
}

fn insert_in_order(out: &mut Vec<Device>, d: Device, f: SortField, desc: bool)
    ensures
        final(out)@ == insert_sorted(old(out)@, d, f, desc),
{
    let mut p: usize = 0;
    while p < out.len()
        invariant
            p <= out@.len(),
            out@ == old(out)@,
            forall|k: int| 0 <= k < p ==> !goes_before(d, #[trigger] out@[k], f, desc),
        ensures
            p <= out@.len(),
            out@ == old(out)@,
            forall|k: int| 0 <= k < p ==> !goes_before(d, #[trigger] out@[k], f, desc),
            p < out@.len() ==> goes_before(d, out@[p as int], f, desc),
        decreases out.len() - p,
    {
        let before = if desc {
            key_first(&out[p], &d, f)
        } else {
            key_first(&d, &out[p], f)
        };
        if before {
            break;
        }
        p = p + 1;
    }
    proof {
        lemma_insert_sorted_at(out@, d, f, desc, p as int);
    }
    out.insert(p, d);
}

/// Orders devices by column `f`, descending when `desc`; ties keep their
/// order (the id order of the table).
pub fn sort_devices(items: Vec<Device>, f: SortField, desc: bool) -> (r: Vec<Device>)
    ensures
        r@ == sorted_by(items@, f, desc),
{
    let mut out: Vec<Device> = Vec::new();
    let mut i: usize = 0;
    while i < items.len()
        invariant
            i <= items@.len(),
            out@ == sorted_by(items@.take(i as int), f, desc),
        decreases items.len() - i,
    {
        assert(items@.take(i + 1).drop_last() =~= items@.take(i as int));
        assert(items@.take(i + 1).last() == items@[i as int]);
        insert_in_order(&mut out, items[i].clone(), f, desc);
        i = i + 1;
    }
    assert(items@.take(items@.len() as int) =~= items@);
    out
}


// ---------------------------------------------------------------------------
// Listings
// ---------------------------------------------------------------------------

/// True when one of name, IP list, serial number, asset number and owner
/// matches the `LIKE` pattern `pat`.
pub open spec fn device_matches(d: Device, pat: Seq<char>) -> bool {
    ||| like_match(d.name@, pat)
    ||| like_match(d.ip_addresses@, pat)
    ||| like_match(d.serial_no@, pat)
    ||| like_match(d.asset_no@, pat)
    ||| like_match(d.owner@, pat)
}

fn device_matches_exec(d: &Device, pat: &str) -> (r: bool)
    ensures
        r == device_matches(*d, pat@),
{
    like_matches(d.name.as_str(), pat) || like_matches(d.ip_addresses.as_str(), pat)
        || like_matches(d.serial_no.as_str(), pat) || like_matches(d.asset_no.as_str(), pat)
        || like_matches(d.owner.as_str(), pat)
}

/// The rack `rid` exists and stands in room `room`.
pub open spec fn rack_in_room(db: Database, rid: i32, room: i32) -> bool {
    let p = id_pos(rack_ids(db.racks@), rid);
    p >= 0 && db.racks@[p].room_id == Some(room)
}

/// How a listing filters devices.
pub struct DeviceFilter {
    /// Devices in the recycle bin are listed too.
    pub include_deleted: bool,
    /// Only devices in the recycle bin are listed.
    pub only_deleted: bool,
    pub rack_id: Option<i32>,
    pub room_id: Option<i32>,
    /// The `LIKE` pattern the search fields must match, if any.
    pub pattern: Option<String>,
}

/// True when `d` passes the filter.
pub open spec fn filter_keeps(db: Database, flt: DeviceFilter, d: Device) -> bool {
    &&& (if flt.only_deleted {
        !is_active(d)
    } else {
        flt.include_deleted || is_active(d)
    })
    &&& (flt.rack_id is None || d.rack_id == flt.rack_id)
    &&& (flt.room_id is None || (d.rack_id is Some && rack_in_room(db, d.rack_id->0, flt.room_id->0)))
    &&& (flt.pattern is None || device_matches(d, flt.pattern->0@))
}

/// The devices of `ds` that pass the filter, in order.
pub open spec fn filtered(db: Database, flt: DeviceFilter, ds: Seq<Device>) -> Seq<Device>
    decreases ds.len(),
{
    if ds.len() == 0 {
        ds
    } else {
        let rest = filtered(db, flt, ds.drop_last());
        if filter_keeps(db, flt, ds.last()) {
            rest.push(ds.last())
        } else {
            rest
        }
    }
}

proof fn lemma_filtered_len(db: Database, flt: DeviceFilter, ds: Seq<Device>)
    ensures
        filtered(db, flt, ds).len() <= ds.len(),
    decreases ds.len(),
{
    if ds.len() > 0 {
        lemma_filtered_len(db, flt, ds.drop_last());
    }
}

fn filter_devices(db: &Database, flt: &DeviceFilter) -> (r: Vec<Device>)
    requires
        db.wf(),
    ensures
        r@ == filtered(*db, *flt, db.devices@),
{
    let mut out: Vec<Device> = Vec::new();
    let mut i: usize = 0;
    while i < db.devices.len()
        invariant
            db.wf(),
            i <= db.devices@.len(),
            out@ == filtered(*db, *flt, db.devices@.take(i as int)),
        decreases db.devices.len() - i,
    {
        let d = &db.devices[i];
        assert(db.devices@.take(i + 1).drop_last() =~= db.devices@.take(i as int));
        assert(db.devices@.take(i + 1).last() == db.devices@[i as int]);
        let state_ok = if flt.only_deleted {
            d.deleted_at.is_some()
        } else {
            flt.include_deleted || d.deleted_at.is_none()
        };
        let rack_ok = match flt.rack_id {
            None => true,
            Some(r) => d.rack_id == Some(r),
        };
        let room_ok = match flt.room_id {
            None => true,
            Some(room) => match d.rack_id {
                None => false,
                Some(rid) => {
                    proof {
                        lemma_id_pos_range(rack_ids(db.racks@), rid);
                    }
                    match rack_position(&db.racks, rid) {
                        None => false,
                        Some(p) => db.racks[p].room_id == Some(room),
                    }
                },
            },
        };
        let search_ok = match &flt.pattern {
            None => true,
            Some(pat) => device_matches_exec(d, pat.as_str()),
        };
        if state_ok && rack_ok && room_ok && search_ok {
            out.push(d.clone());
        }
        i = i + 1;
    }
    assert(db.devices@.take(db.devices@.len() as int) =~= db.devices@);
    out
}

/// The search pattern that a listing uses for an optional term: none when
/// the term is absent or blank, else `%` + escaped term + `%` (the term is
/// trimmed first when `trim` holds).
pub open spec fn pattern_for(search: Option<String>, trim: bool) -> Option<Seq<char>> {
    match search {
        None => None,
        Some(s) => if trimmed(s@).len() == 0 {
            None
        } else if trim {
            Some(search_pattern(trimmed(s@)))
        } else {
            Some(search_pattern(s@))
        },
    }
}

fn make_pattern(search: &Option<String>, trim: bool) -> (r: Option<String>)
    ensures
        match pattern_for(*search, trim) {
            None => r is None,
            Some(p) => r matches Some(x) && x@ == p,
        },
{
    match search {
        None => None,
        Some(s) => {
            let t = trim_str(s.as_str());
            if t.as_str().is_empty() {
                None
            } else {
                let term = if trim {
                    t
                } else {
                    s.clone()
                };
                let e = escape_like(term.as_str());
                let r = concat3("%", e.as_str(), "%");
                proof {
                    reveal_strlit("%");
                    assert("%"@ =~= seq!['%']);
                }
                Some(r)
            }
        },
    }
}

/// The filter of [`list_devices`]: devices in use, in rack `rack_id` when
/// given, matching the search term when it is not blank.
pub open spec fn list_filter_ok(flt: DeviceFilter, rack_id: Option<i32>, search: Option<String>) -> bool {
    &&& !flt.include_deleted
    &&& !flt.only_deleted
    &&& flt.rack_id == rack_id
    &&& flt.room_id is None
    &&& match pattern_for(search, false) {
        None => flt.pattern is None,
        Some(p) => flt.pattern matches Some(x) && x@ == p,
    }
}

/// What a listing gives: the devices that pass the listing's filter,
/// ordered by name.
pub open spec fn list_result(db: Database, rack_id: Option<i32>, search: Option<String>, r: Seq<Device>) -> bool {
    exists|flt: DeviceFilter|
        #[trigger] list_filter_ok(flt, rack_id, search) && r == sorted_by(
            filtered(db, flt, db.devices@),
            SortField::Name,
            false,
        )
}

/// All devices in use (rack view, exports, report): in rack `rack_id` when
/// given; when the search term is not blank, those whose name, IP list,
/// serial number, asset number or owner contains it (`LIKE` with the
/// wildcards of the term escaped); ordered by name.
pub fn list_devices(db: &Database, rack_id: Option<i32>, search: Option<String>) -> (r: Vec<Device>)
    requires
        db.wf(),
    ensures
        list_result(*db, rack_id, search, r@),
{
    let pattern = make_pattern(&search, false);
    let flt = DeviceFilter {
        include_deleted: false,
        only_deleted: false,
        rack_id,
        room_id: None,
        pattern,
    };
    let items = filter_devices(db, &flt);
    let r = sort_devices(items, SortField::Name, false);
    assert(list_filter_ok(flt, rack_id, search));
    r
}

/// The column a listing is ordered by: the whitelisted names map to their
/// column, anything else (including an absent field) to `name`.
pub open spec fn sort_field_of(f: Option<String>) -> SortField {
    match f {
        None => SortField::Name,
        Some(s) => if s@ == "ip_addresses"@ {
            SortField::IpAddresses
        } else if s@ == "serial_no"@ {
            SortField::SerialNo
        } else if s@ == "asset_no"@ {
            SortField::AssetNo
        } else if s@ == "status"@ {
            SortField::Status
        } else if s@ == "power_watt"@ {
            SortField::PowerWatt
        } else if s@ == "created_at"@ {
            SortField::CreatedAt
        } else if s@ == "updated_at"@ {
            SortField::UpdatedAt
        } else if s@ == "rack_id"@ {
            SortField::RackId
        } else {
            SortField::Name
        },
    }
}

fn sort_field_from(f: &Option<String>) -> (r: SortField)
    ensures
        r == sort_field_of(*f),
{
    match f {
        None => SortField::Name,
        Some(s) => {
            let t = s.as_str();
            if str_equal(t, "ip_addresses") {
                SortField::IpAddresses
            } else if str_equal(t, "serial_no") {
                SortField::SerialNo
            } else if str_equal(t, "asset_no") {
                SortField::AssetNo
            } else if str_equal(t, "status") {
                SortField::Status
            } else if str_equal(t, "power_watt") {
                SortField::PowerWatt
            } else if str_equal(t, "created_at") {
                SortField::CreatedAt
            } else if str_equal(t, "updated_at") {
                SortField::UpdatedAt
            } else if str_equal(t, "rack_id") {
                SortField::RackId
            } else {
                SortField::Name
            }
        },
    }
}

/// Descending only for exactly `desc`; anything else is ascending.
pub open spec fn sort_desc(o: Option<String>) -> bool {
    o is Some && o->0@ == "desc"@
}

/// The page size: 100 by default, held to `1..=1000`.
pub open spec fn page_limit(l: Option<i64>) -> int {
    let v = if l is Some {
        l->0 as int
    } else {
        100
    };
    if v < 1 {
        1
    } else if v > 1000 {
        1000
    } else {
        v
    }
}

/// The page start: 0 by default, negative values read as 0.
pub open spec fn page_offset(o: Option<i64>) -> int {
    if o is Some && o->0 > 0 {
        o->0 as int
    } else {
        0
    }
}

/// The rows `offset .. offset + limit` of `s` (fewer at the end).
pub open spec fn page_of(s: Seq<Device>, offset: int, limit: int) -> Seq<Device> {
    if offset >= s.len() {
        Seq::empty()
    } else if offset + limit >= s.len() {
        s.subrange(offset, s.len() as int)
    } else {
        s.subrange(offset, offset + limit)
    }
}

/// The filter of [`query_devices`].
pub open spec fn query_filter_ok(flt: DeviceFilter, q: DeviceQuery) -> bool {
    &&& flt.include_deleted == (q.include_deleted == Some(true))
    &&& !flt.only_deleted
    &&& flt.rack_id == q.rack_id
    &&& flt.room_id == q.room_id
    &&& match pattern_for(q.search, true) {
        None => flt.pattern is None,
        Some(p) => flt.pattern matches Some(x) && x@ == p,
    }
}

/// What a query gives: the page of the filtered devices in the asked order,
/// and the number of devices that pass the filter.
pub open spec fn query_result(db: Database, q: DeviceQuery, items: Seq<Device>, total: int) -> bool {
    exists|flt: DeviceFilter|
        #[trigger] query_filter_ok(flt, q) && items == page_of(
            sorted_by(filtered(db, flt, db.devices@), sort_field_of(q.sort_field), sort_desc(q.sort_order)),
            page_offset(q.offset),
            page_limit(q.limit),
        ) && total == filtered(db, flt, db.devices@).len()
}

fn page(items: &Vec<Device>, offset: i64, limit: i64) -> (r: Vec<Device>)
    requires
        offset >= 0,
        limit >= 1,
        limit <= 1000,
    ensures
        r@ == page_of(items@, offset as int, limit as int),
{
    let mut out: Vec<Device> = Vec::new();
    if offset as u64 >= items.len() as u64 {
        assert(out@ =~= page_of(items@, offset as int, limit as int));
        return out;
    }
    let start = offset as usize;
    let end: usize = if (items.len() - start) as u64 <= limit as u64 {
        items.len()
    } else {
        start + limit as usize
    };
    let mut i = start;
    while i < end
        invariant
            start <= i <= end <= items@.len(),
            start == offset,
            out@ =~= items@.subrange(start as int, i as int),
        decreases end - i,
    {
        out.push(items[i].clone());
        i = i + 1;
    }
    out
}

/// A page of the device ledger. Filters: devices in use unless
/// `include_deleted` is `true`; rack; room (through the racks that stand in
/// it); search on the trimmed term over name, IP list, serial number, asset
/// number and owner, with the term's wildcards escaped. Ordered by a
/// whitelisted column (anything else orders by name), descending only for
/// `desc`; ties in table order. Page: `offset` (default 0, at least 0) and
/// `limit` (default 100, held to 1..=1000). Returns the page and the number
/// of devices that pass the filter, whatever the page.
pub fn query_devices(db: &Database, q: &DeviceQuery) -> (r: (Vec<Device>, i64))
    requires
        db.wf(),
    ensures
        query_result(*db, *q, r.0@, r.1 as int),
{
    let include_deleted = match q.include_deleted {
        Some(b) => b,
        None => false,
    };
    let pattern = make_pattern(&q.search, true);
    let flt = DeviceFilter {
        include_deleted,
        only_deleted: false,
        rack_id: q.rack_id,
        room_id: q.room_id,
        pattern,
    };
    let items = filter_devices(db, &flt);
    proof {
        lemma_filtered_len(*db, flt, db.devices@);
        lemma_ids_len_bound(device_ids(db.devices@), db.next_device_id);
    }
    let total = items.len() as i64;
    let field = sort_field_from(&q.sort_field);
    let desc = match &q.sort_order {
        Some(o) => str_equal(o.as_str(), "desc"),
        None => false,
    };
    let sorted = sort_devices(items, field, desc);
    let limit: i64 = match q.limit {
        Some(l) => if l < 1 {
            1
        } else if l > 1000 {
            1000
        } else {
            l
        },
        None => 100,
    };
    let offset: i64 = match q.offset {
        Some(o) => if o > 0 {
            o
        } else {
            0
        },
        None => 0,
    };
    let items_page = page(&sorted, offset, limit);
    assert(query_filter_ok(flt, *q));
    (items_page, total)
}

/// The recycle bin: devices that are deleted, latest deletion first, at most
/// `limit` of them (default 500, held to 1..=5000).
pub fn list_deleted_devices(db: &Database, limit: Option<i64>) -> (r: Vec<Device>)
    requires
        db.wf(),
    ensures
        exists|flt: DeviceFilter|
            #[trigger] filter_keeps_all_deleted(flt) && r@ == page_of(
                sorted_by(filtered(*db, flt, db.devices@), SortField::DeletedAt, true),
                0,
                bin_limit(limit),
            ),
{
    let flt = DeviceFilter {
        include_deleted: true,
        only_deleted: true,
        rack_id: None,
        room_id: None,
        pattern: None,
    };
    let items = filter_devices(db, &flt);
    let sorted = sort_devices(items, SortField::DeletedAt, true);
    let lim: i64 = match limit {
        Some(l) => if l < 1 {
            1
        } else if l > 5000 {
            5000
        } else {
            l
        },
        None => 500,
    };
    let mut out: Vec<Device> = Vec::new();
    let mut i: usize = 0;
    while i < sorted.len() && (i as u64) < (lim as u64)
        invariant
            i <= sorted@.len(),
            i <= lim,
            1 <= lim <= 5000,
            out@ =~= sorted@.subrange(0, i as int),
        decreases sorted.len() - i,
    {
        out.push(sorted[i].clone());
        i = i + 1;
    }
    assert(filter_keeps_all_deleted(flt));
    out
}

/// The filter of the recycle bin: deleted devices only, nothing else.
pub open spec fn filter_keeps_all_deleted(flt: DeviceFilter) -> bool {
    &&& flt.only_deleted
    &&& flt.rack_id is None
    &&& flt.room_id is None
    &&& flt.pattern is None
}

/// The size of the recycle bin listing: 500 by default, held to 1..=5000.
pub open spec fn bin_limit(l: Option<i64>) -> int {
    let v = if l is Some {
        l->0 as int
    } else {
        500
    };
    if v < 1 {
        1
    } else if v > 5000 {
        5000
    } else {
        v
    }
}

} // verus!
