//! The racks table: listing in display order, creation with defaults,
//! three-state updates, deletion that takes the rack's devices off it,
//! find-or-create by name, and linking a rack to a room.
use vstd::prelude::*;
use crate::db::is_utc_stamp;
use std::collections::HashMap;
use crate::db::{Database, id_pos, rack_ids, room_ids, rack_position, room_position, ids_increasing,
    ids_bounded, lemma_id_pos_range, lemma_id_pos_found, now_iso};
use crate::db::devices::{Failure, failure_is};
use crate::error::AppError;
use crate::models::{Rack, RackCreate, RackUpdate, Patch, Device, copy_opt_string};
use crate::text::{owned, str_equal};

verus! {

/// True when the two databases differ at most in the racks table.
pub open spec fn same_but_racks(a: Database, b: Database) -> bool {
    &&& a.rooms@ == b.rooms@
    &&& a.devices@ == b.devices@
    &&& a.device_models@ == b.device_models@
    &&& a.settings@ == b.settings@
    &&& a.next_room_id == b.next_room_id
    &&& a.next_model_id == b.next_model_id
    &&& a.next_device_id == b.next_device_id
}

/// `s` with `r` inserted after every rack whose sort order is not above it.
pub open spec fn insert_rack_ordered(s: Seq<Rack>, r: Rack) -> Seq<Rack>
    decreases s.len(),
{
    if s.len() == 0 {
        seq![r]
    } else if r.sort_order < s[0].sort_order {
        seq![r] + s
    } else {
        seq![s[0]] + insert_rack_ordered(s.drop_first(), r)
    }
}

/// Racks by sort order; ties in table (id) order.
pub open spec fn racks_ordered(s: Seq<Rack>) -> Seq<Rack>
    decreases s.len(),
{
    if s.len() == 0 {
        s
    } else {
        insert_rack_ordered(racks_ordered(s.drop_last()), s.last())
    }
}

proof fn lemma_insert_rack_at(s: Seq<Rack>, r: Rack, p: int)
    requires
        0 <= p <= s.len(),
        forall|k: int| 0 <= k < p ==> !(r.sort_order < #[trigger] s[k].sort_order),
        p < s.len() ==> r.sort_order < s[p].sort_order,
    ensures
        insert_rack_ordered(s, r) == s.insert(p, r),
    decreases s.len(),
{
    if s.len() == 0 {
        assert(s.insert(p, r) =~= seq![r]);
    } else if p == 0 {
        assert(s.insert(0, r) =~= seq![r] + s);
    } else {
        assert forall|k: int| 0 <= k < p - 1 implies !(r.sort_order < #[trigger] s.drop_first()[k].sort_order) by {
            assert(s.drop_first()[k] == s[k + 1]);
        }
        lemma_insert_rack_at(s.drop_first(), r, p - 1);
        assert(seq![s[0]] + s.drop_first().insert(p - 1, r) =~= s.insert(p, r));
    }
}

/// All racks, by sort order and then id.
pub fn list_racks(db: &Database) -> (r: Vec<Rack>)
    ensures
        r@ == racks_ordered(db.racks@),
{
    let mut out: Vec<Rack> = Vec::new();
    let mut i: usize = 0;
    while i < db.racks.len()
        invariant
            i <= db.racks@.len(),
            out@ == racks_ordered(db.racks@.take(i as int)),
        decreases db.racks.len() - i,
    {
        assert(db.racks@.take(i + 1).drop_last() =~= db.racks@.take(i as int));
        assert(db.racks@.take(i + 1).last() == db.racks@[i as int]);
        let r = db.racks[i].clone();
        let mut p: usize = 0;
        while p < out.len()
            invariant
                p <= out@.len(),
                forall|k: int| 0 <= k < p ==> !(r.sort_order < #[trigger] out@[k].sort_order),
            ensures
                p <= out@.len(),
                forall|k: int| 0 <= k < p ==> !(r.sort_order < #[trigger] out@[k].sort_order),
                p < out@.len() ==> r.sort_order < out@[p as int].sort_order,
            decreases out.len() - p,
        {
            if r.sort_order < out[p].sort_order {
                break;
            }
            p = p + 1;
        }
        proof {
            lemma_insert_rack_at(out@, r, p as int);
        }
        out.insert(p, r);
        i = i + 1;
    }
    assert(db.racks@.take(db.racks@.len() as int) =~= db.racks@);
    out
}

/// The rack with `id`, if any.
pub open spec fn rack_at(db: Database, id: i32) -> Option<Rack> {
    let p = id_pos(rack_ids(db.racks@), id);
    if p >= 0 {
        Some(db.racks@[p])
    } else {
        None
    }
}

/// The rack with `id`, if any.
pub fn get_rack(db: &Database, id: i32) -> (r: Option<Rack>)
    requires
        db.wf(),
    ensures
        r == rack_at(*db, id),
{
    proof {
        lemma_id_pos_range(rack_ids(db.racks@), id);
    }
    match rack_position(&db.racks, id) {
        Some(p) => Some(db.racks[p].clone()),
        None => None,
    }
}

/// Why creating a rack fails: a room that does not exist, then an id beyond
/// the `i32` range.
pub open spec fn rack_create_failure(db: Database, data: RackCreate) -> Option<Failure> {
    if data.room_id is Some && id_pos(room_ids(db.rooms@), data.room_id->0) < 0 {
        Some(Failure::Database("FOREIGN KEY constraint failed"@))
    } else if db.next_rack_id > i32::MAX {
        Some(Failure::Missing("机柜"@))
    } else {
        None
    }
}

/// True when `r` is the rack that creating `data` in `db` at `now` makes:
/// height 42, row and column 0, view `front`, sort order 0 unless given.
pub open spec fn is_created_rack(r: Rack, db: Database, data: RackCreate, now: String) -> bool {
    &&& r.id == db.next_rack_id
    &&& r.name == data.name
    &&& r.height_u == (if data.height_u is Some { data.height_u->0 } else { 42 })
    &&& r.row == (if data.row is Some { data.row->0 } else { 0 })
    &&& r.col == (if data.col is Some { data.col->0 } else { 0 })
    &&& r.view@ == (if data.view is Some { data.view->0@ } else { "front"@ })
    &&& r.sort_order == (if data.sort_order is Some { data.sort_order->0 } else { 0 })
    &&& r.room_id == data.room_id
    &&& r.created_at == Some(now)
    &&& r.updated_at == Some(now)
}

proof fn lemma_rack_push_wf(old_db: Database, new_db: Database, r: Rack)
    requires
        old_db.wf(),
        same_but_racks(old_db, new_db),
        new_db.racks@ == old_db.racks@.push(r),
        r.id == old_db.next_rack_id,
        new_db.next_rack_id == old_db.next_rack_id + 1,
        old_db.next_rack_id <= i32::MAX,
    ensures
        new_db.wf(),
{
    assert(rack_ids(new_db.racks@) =~= rack_ids(old_db.racks@).push(r.id));
}

/// Creates a rack at `now` with the defaults of the schema. On failure the
/// database is unchanged.
pub fn insert_rack_at(db: &mut Database, data: &RackCreate, now: &String) -> (r: Result<Rack, AppError>)
    requires
        old(db).wf(),
    ensures
        final(db).wf(),
        match rack_create_failure(*old(db), *data) {
            Some(f) => r matches Err(e) && failure_is(e, f) && *final(db) == *old(db),
            None => r matches Ok(x) && is_created_rack(x, *old(db), *data, *now)
                && final(db).racks@ == old(db).racks@.push(x)
                && final(db).next_rack_id == old(db).next_rack_id + 1
                && same_but_racks(*old(db), *final(db)),
        },
{
    if let Some(room) = data.room_id {
        if room_position(&db.rooms, room).is_none() {
            return Err(AppError::database("FOREIGN KEY constraint failed"));
        }
    }
    if db.next_rack_id > i32::MAX as i64 {
        return Err(AppError::not_found("机柜"));
    }
    let rack = Rack {
        id: db.next_rack_id as i32,
        name: data.name.clone(),
        height_u: match data.height_u {
            Some(h) => h,
            None => 42,
        },
        row: match data.row {
            Some(v) => v,
            None => 0,
        },
        col: match data.col {
            Some(v) => v,
            None => 0,
        },
        view: match &data.view {
            Some(v) => v.clone(),
            None => owned("front"),
        },
        sort_order: match data.sort_order {
            Some(v) => v,
            None => 0,
        },
        room_id: data.room_id,
        created_at: Some(now.clone()),
        updated_at: Some(now.clone()),
    };
    db.racks.push(rack.clone());
    db.next_rack_id = db.next_rack_id + 1;
    proof {
        lemma_rack_push_wf(*old(db), *db, rack);
    }
    Ok(rack)
}

/// Creates a rack at the current time (see [`insert_rack_at`]).
pub fn insert_rack(db: &mut Database, data: &RackCreate) -> (r: Result<Rack, AppError>)
    requires
        old(db).wf(),
    ensures
        final(db).wf(),
        match rack_create_failure(*old(db), *data) {
            Some(f) => r matches Err(e) && failure_is(e, f) && *final(db) == *old(db),
            None => r matches Ok(x) && (exists|now: String| is_utc_stamp(now@) && is_created_rack(x, *old(db), *data, now))
                && final(db).racks@ == old(db).racks@.push(x)
                && final(db).next_rack_id == old(db).next_rack_id + 1
                && same_but_racks(*old(db), *final(db)),
        },
{
    let now = now_iso();
    insert_rack_at(db, data, &now)
}

/// True when a rack update changes at least one column.
pub open spec fn rack_has_assignment(data: RackUpdate) -> bool {
    !(data.name is Unset) || !(data.height_u is Unset) || !(data.row is Unset) || !(data.col is Unset)
        || !(data.view is Unset) || !(data.sort_order is Unset) || !(data.room_id is Unset)
}

/// Why updating a rack fails: an emptied name or height (refused by the
/// schema), a room that does not exist, then a cleared row, column, view or
/// sort order (the row can no longer be read back, so the update is undone).
pub open spec fn rack_update_failure(db: Database, data: RackUpdate) -> Option<Failure> {
    if !rack_has_assignment(data) {
        None
    } else if data.name is Clear {
        Some(Failure::Database("NOT NULL constraint failed: racks.name"@))
    } else if data.height_u is Clear {
        Some(Failure::Database("NOT NULL constraint failed: racks.height_u"@))
    } else if data.room_id is Assign && id_pos(room_ids(db.rooms@), data.room_id->0) < 0 {
        Some(Failure::Database("FOREIGN KEY constraint failed"@))
    } else if data.row is Clear {
        Some(Failure::Database("Invalid column type Null at index: 3, name: row"@))
    } else if data.col is Clear {
        Some(Failure::Database("Invalid column type Null at index: 4, name: col"@))
    } else if data.view is Clear {
        Some(Failure::Database("Invalid column type Null at index: 5, name: view"@))
    } else if data.sort_order is Clear {
        Some(Failure::Database("Invalid column type Null at index: 6, name: sort_order"@))
    } else {
        None
    }
}

/// The value of an `i32` column after a patch that does not clear it.
pub open spec fn int_after(p: Patch<i32>, cur: i32) -> i32 {
    match p {
        Patch::Assign(v) => v,
        _ => cur,
    }
}

/// The value of a text column after a patch that does not clear it.
pub open spec fn string_after(p: Patch<String>, cur: String) -> String {
    match p {
        Patch::Assign(v) => v,
        _ => cur,
    }
}

/// True when `n` is rack `cur` after `data` at `now`.
pub open spec fn is_updated_rack(n: Rack, cur: Rack, data: RackUpdate, now: String) -> bool {
    n == Rack {
        name: string_after(data.name, cur.name),
        height_u: int_after(data.height_u, cur.height_u),
        row: int_after(data.row, cur.row),
        col: int_after(data.col, cur.col),
        view: string_after(data.view, cur.view),
        sort_order: int_after(data.sort_order, cur.sort_order),
        room_id: match data.room_id {
            Patch::Assign(v) => Some(v),
            Patch::Clear => None,
            Patch::Unset => cur.room_id,
        },
        updated_at: Some(now),
        ..cur
    }
}

fn int_patched(p: &Patch<i32>, cur: i32) -> (r: i32)
    ensures
        r == int_after(*p, cur),
{
    match p {
        Patch::Assign(v) => *v,
        _ => cur,
    }
}

fn string_patched(p: &Patch<String>, cur: &String) -> (r: String)
    ensures
        r == string_after(*p, *cur),
{
    match p {
        Patch::Assign(v) => v.clone(),
        _ => cur.clone(),
    }
}

/// Applies a three-state update to rack `id` at `now`. A missing rack gives
/// `Ok(None)`; an update that changes nothing returns the rack as it is.
/// On failure the database is unchanged.
pub fn update_rack_at(db: &mut Database, id: i32, data: &RackUpdate, now: &String) -> (r: Result<Option<Rack>, AppError>)
    requires
        old(db).wf(),
    ensures
        final(db).wf(),
        rack_at(*old(db), id) is None ==> (r matches Ok(None) && *final(db) == *old(db)),
        rack_at(*old(db), id) is Some ==> ({
            let p = id_pos(rack_ids(old(db).racks@), id);
            let cur = old(db).racks@[p];
            match rack_update_failure(*old(db), *data) {
                Some(f) => r matches Err(e) && failure_is(e, f) && *final(db) == *old(db),
                None => if !rack_has_assignment(*data) {
                    r == Ok::<Option<Rack>, AppError>(Some(cur)) && *final(db) == *old(db)
                } else {
                    r matches Ok(Some(n)) && is_updated_rack(n, cur, *data, *now)
                        && final(db).racks@ == old(db).racks@.update(p, n)
                        && same_but_racks(*old(db), *final(db))
                        && final(db).next_rack_id == old(db).next_rack_id
                },
            }
        }),
{
    proof {
        lemma_id_pos_range(rack_ids(db.racks@), id);
    }
    let p = match rack_position(&db.racks, id) {
        None => return Ok(None),
        Some(p) => p,
    };
    let cur = db.racks[p].clone();
    let assigned = !(data.name.is_unset() && data.height_u.is_unset() && data.row.is_unset()
        && data.col.is_unset() && data.view.is_unset() && data.sort_order.is_unset()
        && data.room_id.is_unset());
    if !assigned {
        return Ok(Some(cur));
    }
    if let Patch::Clear = &data.name {
        return Err(AppError::database("NOT NULL constraint failed: racks.name"));
    }
    if let Patch::Clear = &data.height_u {
        return Err(AppError::database("NOT NULL constraint failed: racks.height_u"));
    }
    if let Patch::Assign(room) = &data.room_id {
        if room_position(&db.rooms, *room).is_none() {
            return Err(AppError::database("FOREIGN KEY constraint failed"));
        }
    }
    if let Patch::Clear = &data.row {
        return Err(AppError::database("Invalid column type Null at index: 3, name: row"));
    }
    if let Patch::Clear = &data.col {
        return Err(AppError::database("Invalid column type Null at index: 4, name: col"));
    }
    if let Patch::Clear = &data.view {
        return Err(AppError::database("Invalid column type Null at index: 5, name: view"));
    }
    if let Patch::Clear = &data.sort_order {
        return Err(AppError::database("Invalid column type Null at index: 6, name: sort_order"));
    }
    let n = Rack {
        id: cur.id,
        name: string_patched(&data.name, &cur.name),
        height_u: int_patched(&data.height_u, cur.height_u),
        row: int_patched(&data.row, cur.row),
        col: int_patched(&data.col, cur.col),
        view: string_patched(&data.view, &cur.view),
        sort_order: int_patched(&data.sort_order, cur.sort_order),
        room_id: match &data.room_id {
            Patch::Assign(v) => Some(*v),
            Patch::Clear => None,
            Patch::Unset => cur.room_id,
        },
        created_at: copy_opt_string(&cur.created_at),
        updated_at: Some(now.clone()),
    };
    db.racks.set(p, n.clone());
    proof {
        assert(rack_ids(db.racks@) =~= rack_ids(old(db).racks@));
    }
    Ok(Some(n))
}

/// Applies a three-state update at the current time (see
/// [`update_rack_at`]).
pub fn update_rack(db: &mut Database, id: i32, data: &RackUpdate) -> (r: Result<Option<Rack>, AppError>)
    requires
        old(db).wf(),
    ensures
        final(db).wf(),
        rack_at(*old(db), id) is None ==> (r matches Ok(None) && *final(db) == *old(db)),
        rack_at(*old(db), id) is Some ==> ({
            let p = id_pos(rack_ids(old(db).racks@), id);
            let cur = old(db).racks@[p];
            match rack_update_failure(*old(db), *data) {
                Some(f) => r matches Err(e) && failure_is(e, f) && *final(db) == *old(db),
                None => if !rack_has_assignment(*data) {
                    r == Ok::<Option<Rack>, AppError>(Some(cur)) && *final(db) == *old(db)
                } else {
                    r matches Ok(Some(n)) && (exists|now: String| is_utc_stamp(now@) && is_updated_rack(n, cur, *data, now))
                        && final(db).racks@ == old(db).racks@.update(p, n)
                        && same_but_racks(*old(db), *final(db))
                        && final(db).next_rack_id == old(db).next_rack_id
                },
            }
        }),
{
    let now = now_iso();
    update_rack_at(db, id, data, &now)
}

/// `ds` with every device of rack `rid` taken off it (rack and range
/// emptied; the height stays).
pub open spec fn unracked(ds: Seq<Device>, rid: i32) -> Seq<Device> {
    Seq::new(
        ds.len(),
        |i: int|
            if ds[i].rack_id == Some(rid) {
                Device { rack_id: None, start_u: None, end_u: None, ..ds[i] }
            } else {
                ds[i]
            },
    )
}

/// Deletes rack `id`. Every device of the rack, deleted or not, is taken off
/// it first (its height is kept for the next placement). Returns whether a
/// rack was deleted.
pub fn delete_rack(db: &mut Database, id: i32) -> (r: bool)
    requires
        old(db).wf(),
    ensures
        final(db).wf(),
        final(db).devices@ == unracked(old(db).devices@, id),
        r == (id_pos(rack_ids(old(db).racks@), id) >= 0),
        r ==> final(db).racks@ == old(db).racks@.remove(id_pos(rack_ids(old(db).racks@), id)),
        !r ==> final(db).racks@ == old(db).racks@,
        final(db).rooms@ == old(db).rooms@,
        final(db).device_models@ == old(db).device_models@,
        final(db).settings@ == old(db).settings@,
        final(db).next_rack_id == old(db).next_rack_id,
        final(db).next_device_id == old(db).next_device_id,
{
    let mut i: usize = 0;
    while i < db.devices.len()
        invariant
            i <= db.devices@.len(),
            db.devices@.len() == old(db).devices@.len(),
            forall|k: int| 0 <= k < i ==> db.devices@[k] == #[trigger] unracked(old(db).devices@, id)[k],
            forall|k: int| i <= k < db.devices@.len() ==> db.devices@[k] == old(db).devices@[k],
            db.racks@ == old(db).racks@,
            db.rooms@ == old(db).rooms@,
            db.device_models@ == old(db).device_models@,
            db.settings@ == old(db).settings@,
            db.next_rack_id == old(db).next_rack_id,
            db.next_device_id == old(db).next_device_id,
            db.next_room_id == old(db).next_room_id,
            db.next_model_id == old(db).next_model_id,
        decreases db.devices.len() - i,
    {
        if db.devices[i].rack_id == Some(id) {
            let mut d = db.devices[i].clone();
            d.rack_id = None;
            d.start_u = None;
            d.end_u = None;
            db.devices.set(i, d);
        }
        i = i + 1;
    }
    assert(db.devices@ =~= unracked(old(db).devices@, id));
    proof {
        let os = old(db).devices@;
        let ns = db.devices@;
        assert(crate::db::device_ids(ns) =~= crate::db::device_ids(os));
        assert forall|a: int, b: int|
            0 <= a < ns.len() && 0 <= b < ns.len() && a != b && crate::db::is_active(ns[a])
                && crate::db::is_active(ns[b]) implies {
            &&& (ns[a].serial_no@.len() > 0 ==> ns[a].serial_no@ != ns[b].serial_no@)
            &&& (ns[a].asset_no@.len() > 0 ==> ns[a].asset_no@ != ns[b].asset_no@)
        } by {
            assert(crate::db::is_active(os[a]) && crate::db::is_active(os[b]));
        }
        assert forall|k: int| 0 <= k < ns.len() implies crate::db::span_fits(#[trigger] ns[k]) by {
            assert(crate::db::span_fits(os[k]));
        }
    }
    proof {
        lemma_id_pos_range(rack_ids(db.racks@), id);
    }
    match rack_position(&db.racks, id) {
        None => false,
        Some(p) => {
            let ghost before = db.racks@;
            db.racks.remove(p);
            proof {
                let ns = db.racks@;
                assert(rack_ids(ns) =~= rack_ids(before).remove(p as int));
                assert forall|a: int, b: int| 0 <= a < b < rack_ids(ns).len() implies rack_ids(ns)[a]
                    < rack_ids(ns)[b] by {
                    let a2 = if a < p { a } else { a + 1 };
                    let b2 = if b < p { b } else { b + 1 };
                    assert(rack_ids(before)[a2] < rack_ids(before)[b2]);
                }
                assert forall|k: int| 0 <= k < rack_ids(ns).len() implies 1 <= #[trigger] rack_ids(ns)[k]
                    < db.next_rack_id by {
                    let k2 = if k < p { k } else { k + 1 };
                    assert(rack_ids(ns)[k] == rack_ids(before)[k2]);
                }
            }
            true
        },
    }
}

/// The first rack (in id order) called `name`.
pub open spec fn first_rack_named(rs: Seq<Rack>, name: Seq<char>) -> Option<Rack>
    decreases rs.len(),
{
    if rs.len() == 0 {
        None
    } else if rs[0].name@ == name {
        Some(rs[0])
    } else {
        first_rack_named(rs.drop_first(), name)
    }
}

/// The id of the first rack called `name`, if any.
pub fn find_rack_id_by_name(db: &Database, name: &str) -> (r: Option<i32>)
    ensures
        match first_rack_named(db.racks@, name@) {
            Some(x) => r == Some(x.id),
            None => r is None,
        },
{
    let mut i: usize = 0;
    assert(db.racks@.skip(0) =~= db.racks@);
    while i < db.racks.len()
        invariant
            i <= db.racks@.len(),
            first_rack_named(db.racks@, name@) == first_rack_named(db.racks@.skip(i as int), name@),
        decreases db.racks.len() - i,
    {
        assert(db.racks@.skip(i as int)[0] == db.racks@[i as int]);
        assert(db.racks@.skip(i as int).drop_first() =~= db.racks@.skip(i + 1));
        if str_equal(db.racks[i].name.as_str(), name) {
            return Some(db.racks[i].id);
        }
        i = i + 1;
    }
    None
}

/// What finding or creating the rack called `name` in `a` gives: the id of
/// the first rack so called, with nothing changed; else, when an id is
/// left, a new rack of that name (height 42, no room) appended with the
/// next id; else the missing-row error, with nothing changed.
pub open spec fn rack_found_or_created(a: Database, b: Database, name: Seq<char>, r: Result<i32, AppError>) -> bool {
    match first_rack_named(a.racks@, name) {
        Some(x) => r == Ok::<i32, AppError>(x.id) && b == a,
        None => if a.next_rack_id > i32::MAX {
            r matches Err(e) && failure_is(e, Failure::Missing("机柜"@)) && b == a
        } else {
            &&& r == Ok::<i32, AppError>(a.next_rack_id as i32)
            &&& b.racks@.len() == a.racks@.len() + 1
            &&& b.racks@.last().id == a.next_rack_id
            &&& b.racks@.last().name@ == name
            &&& b.racks@.last().height_u == 42
            &&& b.racks@.last().room_id is None
            &&& b.racks@.drop_last() == a.racks@
            &&& same_but_racks(a, b)
        },
    }
}

/// The id of the rack called `name`, created at `now` (height 42, other
/// columns at their defaults) when there is none.
pub fn find_or_create_rack_at(db: &mut Database, name: &str, now: &String) -> (r: Result<i32, AppError>)
    requires
        old(db).wf(),
    ensures
        final(db).wf(),
        rack_found_or_created(*old(db), *final(db), name@, r),
{
    if let Some(id) = find_rack_id_by_name(db, name) {
        return Ok(id);
    }
    let data = RackCreate {
        name: owned(name),
        height_u: Some(42),
        row: None,
        col: None,
        view: None,
        sort_order: None,
        room_id: None,
    };
    let rack = insert_rack_at(db, &data, now)?;
    assert(db.racks@.drop_last() =~= old(db).racks@);
    Ok(rack.id)
}

/// Find-or-create at the current time (see [`find_or_create_rack_at`]).
pub fn find_or_create_rack(db: &mut Database, name: &str) -> (r: Result<i32, AppError>)
    requires
        old(db).wf(),
    ensures
        final(db).wf(),
        rack_found_or_created(*old(db), *final(db), name@, r),
{
    let now = now_iso();
    find_or_create_rack_at(db, name, &now)
}

/// Rack `r` linked to room `room_id` at `now`.
pub open spec fn linked_rack(r: Rack, room_id: i32, now: String) -> Rack {
    Rack { room_id: Some(room_id), updated_at: Some(now), ..r }
}

/// What linking rack `rack_id` of `a` to room `room_id` at `now` gives: a
/// missing rack, or one that already has a room, is left alone; a missing
/// room is refused by the schema; else the rack gets the room.
pub open spec fn rack_room_linked(a: Database, b: Database, rack_id: i32, room_id: i32, now: String, r: Result<(), AppError>) -> bool {
    let p = id_pos(rack_ids(a.racks@), rack_id);
    if p >= 0 && a.racks@[p].room_id is None {
        if id_pos(room_ids(a.rooms@), room_id) < 0 {
            r matches Err(e) && failure_is(e, Failure::Database("FOREIGN KEY constraint failed"@)) && b == a
        } else {
            r is Ok && b.racks@ == a.racks@.update(p, linked_rack(a.racks@[p], room_id, now))
                && same_but_racks(a, b) && b.next_rack_id == a.next_rack_id
        }
    } else {
        r is Ok && b == a
    }
}

/// Links rack `rack_id` to room `room_id` at `now`, but only when the rack
/// belongs to no room yet (a room set by hand is never overwritten). A
/// missing rack changes nothing; linking to a missing room is refused.
pub fn link_rack_room_at(db: &mut Database, rack_id: i32, room_id: i32, now: &String) -> (r: Result<(), AppError>)
    requires
        old(db).wf(),
    ensures
        final(db).wf(),
        rack_room_linked(*old(db), *final(db), rack_id, room_id, *now, r),
{
    proof {
        lemma_id_pos_range(rack_ids(db.racks@), rack_id);
    }
    match rack_position(&db.racks, rack_id) {
        None => Ok(()),
        Some(p) => {
            if db.racks[p].room_id.is_some() {
                return Ok(());
            }
            if room_position(&db.rooms, room_id).is_none() {
                return Err(AppError::database("FOREIGN KEY constraint failed"));
            }
            let mut rack = db.racks[p].clone();
            rack.room_id = Some(room_id);
            rack.updated_at = Some(now.clone());
            db.racks.set(p, rack);
            proof {
                assert(rack_ids(db.racks@) =~= rack_ids(old(db).racks@));
            }
            Ok(())
        },
    }
}

/// Links a rack to a room at the current time (see [`link_rack_room_at`]).
pub fn link_rack_room(db: &mut Database, rack_id: i32, room_id: i32) -> (r: Result<(), AppError>)
    requires
        old(db).wf(),
    ensures
        final(db).wf(),
        ({
            let p = id_pos(rack_ids(old(db).racks@), rack_id);
            if p >= 0 && old(db).racks@[p].room_id is None {
                if id_pos(room_ids(old(db).rooms@), room_id) < 0 {
                    r matches Err(e) && failure_is(e, Failure::Database("FOREIGN KEY constraint failed"@))
                        && *final(db) == *old(db)
                } else {
                    r is Ok && (exists|now: String| is_utc_stamp(now@) && final(db).racks@ == old(db).racks@.update(
                        p,
                        #[trigger] linked_rack(old(db).racks@[p], room_id, now),
                    )) && same_but_racks(*old(db), *final(db))
                        && final(db).next_rack_id == old(db).next_rack_id
                }
            } else {
                r is Ok && *final(db) == *old(db)
            }
        }),
{
    let now = now_iso();
    link_rack_room_at(db, rack_id, room_id, &now)
}

/// Each rack's name and room by its id (for an id listed twice, those of
/// its last listing).
pub fn list_racks_map(db: &Database) -> (r: HashMap<i32, (String, Option<i32>)>)
    ensures
        forall|k: i32| r@.contains_key(k) <==> exists|i: int|
            0 <= i < racks_ordered(db.racks@).len() && (#[trigger] racks_ordered(db.racks@)[i]).id == k,
        forall|i: int|
            0 <= i < racks_ordered(db.racks@).len() && (forall|j: int|
                i < j < racks_ordered(db.racks@).len() ==> (#[trigger] racks_ordered(db.racks@)[j]).id != racks_ordered(db.racks@)[i].id)
                ==> r@[(#[trigger] racks_ordered(db.racks@)[i]).id] == (racks_ordered(db.racks@)[i].name, racks_ordered(db.racks@)[i].room_id),
{
    broadcast use vstd::std_specs::hash::group_hash_axioms;

    let items = list_racks(db);
    let mut out: HashMap<i32, (String, Option<i32>)> = HashMap::new();
    let mut i: usize = 0;
    while i < items.len()
        invariant
            i <= items@.len(),
            items@ == racks_ordered(db.racks@),
            forall|k: i32| out@.contains_key(k) <==> exists|j: int| 0 <= j < i && (#[trigger] items@[j]).id == k,
            forall|j: int|
                0 <= j < i && (forall|l: int| j < l < i ==> (#[trigger] items@[l]).id != items@[j].id)
                    ==> out@[(#[trigger] items@[j]).id] == (items@[j].name, items@[j].room_id),
        decreases items.len() - i,
    {
        let ghost before = out@;
        out.insert(items[i].id, (items[i].name.clone(), items[i].room_id));
        proof {
            assert forall|k: i32| out@.contains_key(k) <==> exists|j: int| 0 <= j < i + 1 && (#[trigger] items@[
                j]).id == k by {
                if out@.contains_key(k) && k != items@[i as int].id {
                    assert(before.contains_key(k));
                }
                if exists|j: int| 0 <= j < i + 1 && (#[trigger] items@[j]).id == k {
                    let j = choose|j: int| 0 <= j < i + 1 && (#[trigger] items@[j]).id == k;
                    if j < i {
                        assert(before.contains_key(k));
                    }
                }
            }
            assert forall|j: int|
                0 <= j < i + 1 && (forall|l: int| j < l < i + 1 ==> (#[trigger] items@[l]).id != items@[j].id)
                    implies out@[(#[trigger] items@[j]).id] == (items@[j].name, items@[j].room_id) by {
                if j < i {
                    assert(items@[i as int].id != items@[j].id);
                }
            }
        }
        i = i + 1;
    }
    out
}

} // verus!
