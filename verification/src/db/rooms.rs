//! The rooms table: listing in display order, creation, three-state
//! updates under the unique-name rule, find-or-create by name, and deletion
//! that leaves the room's racks without a room.
use vstd::prelude::*;
use crate::db::is_utc_stamp;
use std::collections::HashMap;
use crate::db::{Database, id_pos, room_ids, rack_ids, room_position, ids_increasing, ids_bounded,
    room_names_unique, lemma_id_pos_range, now_iso};
use crate::db::devices::{Failure, failure_is};
use crate::error::AppError;
use crate::models::{Room, RoomCreate, RoomUpdate, Rack, Patch, copy_opt_string};
use crate::text::{owned, str_equal};

verus! {

/// True when the two databases differ at most in the rooms table.
pub open spec fn same_but_rooms(a: Database, b: Database) -> bool {
    &&& a.racks@ == b.racks@
    &&& a.devices@ == b.devices@
    &&& a.device_models@ == b.device_models@
    &&& a.settings@ == b.settings@
    &&& a.next_rack_id == b.next_rack_id
    &&& a.next_model_id == b.next_model_id
    &&& a.next_device_id == b.next_device_id
}

/// `s` with `r` inserted after every room whose sort order is not above it.
pub open spec fn insert_room_ordered(s: Seq<Room>, r: Room) -> Seq<Room>
    decreases s.len(),
{
    if s.len() == 0 {
        seq![r]
    } else if r.sort_order < s[0].sort_order {
        seq![r] + s
    } else {
        seq![s[0]] + insert_room_ordered(s.drop_first(), r)
    }
}

/// Rooms by sort order; ties in table (id) order.
pub open spec fn rooms_ordered(s: Seq<Room>) -> Seq<Room>
    decreases s.len(),
{
    if s.len() == 0 {
        s
    } else {
        insert_room_ordered(rooms_ordered(s.drop_last()), s.last())
    }
}

proof fn lemma_insert_room_at(s: Seq<Room>, r: Room, p: int)
    requires
        0 <= p <= s.len(),
        forall|k: int| 0 <= k < p ==> !(r.sort_order < #[trigger] s[k].sort_order),
        p < s.len() ==> r.sort_order < s[p].sort_order,
    ensures
        insert_room_ordered(s, r) == s.insert(p, r),
    decreases s.len(),
{
    if s.len() == 0 {
        assert(s.insert(p, r) =~= seq![r]);
    } else if p == 0 {
        assert(s.insert(0, r) =~= seq![r] + s);
    } else {
        assert forall|k: int| 0 <= k < p - 1 implies !(r.sort_order
            < #[trigger] s.drop_first()[k].sort_order) by {
            assert(s.drop_first()[k] == s[k + 1]);
        }
        lemma_insert_room_at(s.drop_first(), r, p - 1);
        assert(seq![s[0]] + s.drop_first().insert(p - 1, r) =~= s.insert(p, r));
    }
}

/// All rooms, by sort order and then id.
pub fn list_rooms(db: &Database) -> (r: Vec<Room>)
    ensures
        r@ == rooms_ordered(db.rooms@),
{
    let mut out: Vec<Room> = Vec::new();
    let mut i: usize = 0;
    while i < db.rooms.len()
        invariant
            i <= db.rooms@.len(),
            out@ == rooms_ordered(db.rooms@.take(i as int)),
        decreases db.rooms.len() - i,
    {
        assert(db.rooms@.take(i + 1).drop_last() =~= db.rooms@.take(i as int));
        assert(db.rooms@.take(i + 1).last() == db.rooms@[i as int]);
        let r = db.rooms[i].clone();
        let mut p: usize = 0;
        while p < out.len()
            invariant
                p <= out@.len(),
                forall|k: int| 0 <= k < p ==> !(r.sort_order < #[trigger] out@[k].sort_order),
            ensures
                p <= out@.len(),
                forall|k: int| 0 <= k < p ==> !(r.sort_order < #[trigger] out@[k].sort_order),
                p < out@.len() ==> r.sort_order < out@[p as int].sort_order,
            decreases out.len() - p,
        {
            if r.sort_order < out[p].sort_order {
                break;
            }
            p = p + 1;
        }
        proof {
            lemma_insert_room_at(out@, r, p as int);
        }
        out.insert(p, r);
        i = i + 1;
    }
    assert(db.rooms@.take(db.rooms@.len() as int) =~= db.rooms@);
    out
}

/// The room with `id`, if any.
pub open spec fn room_at(db: Database, id: i32) -> Option<Room> {
    let p = id_pos(room_ids(db.rooms@), id);
    if p >= 0 {
        Some(db.rooms@[p])
    } else {
        None
    }
}

/// The room with `id`, if any.
pub fn get_room(db: &Database, id: i32) -> (r: Option<Room>)
    requires
        db.wf(),
    ensures
        r == room_at(*db, id),
{
    proof {
        lemma_id_pos_range(room_ids(db.rooms@), id);
    }
    match room_position(&db.rooms, id) {
        Some(p) => Some(db.rooms[p].clone()),
        None => None,
    }
}

/// True when a room other than `id` is called `name`.
pub open spec fn other_room_named(rs: Seq<Room>, name: Seq<char>, id: i32) -> bool {
    exists|k: int| 0 <= k < rs.len() && rs[k].id != id && (#[trigger] rs[k]).name@ == name
}

/// Whether a room other than `id` is called `name`.
fn room_name_taken(rooms: &Vec<Room>, name: &str, id: i32) -> (r: bool)
    ensures
        r == other_room_named(rooms@, name@, id),
{
    let mut i: usize = 0;
    while i < rooms.len()
        invariant
            i <= rooms@.len(),
            forall|k: int| 0 <= k < i ==> !(rooms@[k].id != id && (#[trigger] rooms@[k]).name@ == name@),
        decreases rooms.len() - i,
    {
        if rooms[i].id != id && str_equal(rooms[i].name.as_str(), name) {
            assert(rooms@[i as int].id != id && rooms@[i as int].name@ == name@);
            return true;
        }
        i = i + 1;
    }
    false
}

/// The text of the schema's uniqueness failure on room names.
pub open spec fn room_name_unique_text() -> Seq<char> {
    "UNIQUE constraint failed: rooms.name"@
}

/// Why creating a room fails: a non-empty name that another room has, then
/// an id beyond the `i32` range.
pub open spec fn room_create_failure(db: Database, data: RoomCreate) -> Option<Failure> {
    if data.name@.len() > 0 && other_room_named(db.rooms@, data.name@, 0) {
        Some(Failure::Database(room_name_unique_text()))
    } else if db.next_room_id > i32::MAX {
        Some(Failure::Missing("机房"@))
    } else {
        None
    }
}

/// True when `r` is the room that creating `data` in `db` at `now` makes:
/// location empty and sort order 0 unless given.
pub open spec fn is_created_room(r: Room, db: Database, data: RoomCreate, now: String) -> bool {
    &&& r.id == db.next_room_id
    &&& r.name == data.name
    &&& r.location@ == (if data.location is Some { data.location->0@ } else { ""@ })
    &&& r.sort_order == (if data.sort_order is Some { data.sort_order->0 } else { 0 })
    &&& r.created_at == Some(now)
    &&& r.updated_at == Some(now)
}

proof fn lemma_no_zero_room(rs: Seq<Room>, next: i64, name: Seq<char>)
    requires
        ids_bounded(room_ids(rs), next),
    ensures
        other_room_named(rs, name, 0) == (exists|k: int| 0 <= k < rs.len() && (#[trigger] rs[k]).name@ == name),
{
    if exists|k: int| 0 <= k < rs.len() && (#[trigger] rs[k]).name@ == name {
        let k = choose|k: int| 0 <= k < rs.len() && (#[trigger] rs[k]).name@ == name;
        assert(room_ids(rs)[k] == rs[k].id);
    }
}

/// Creates a room at `now`. On failure the database is unchanged.
pub fn insert_room_at(db: &mut Database, data: &RoomCreate, now: &String) -> (r: Result<Room, AppError>)
    requires
        old(db).wf(),
    ensures
        final(db).wf(),
        match room_create_failure(*old(db), *data) {
            Some(f) => r matches Err(e) && failure_is(e, f) && *final(db) == *old(db),
            None => r matches Ok(x) && is_created_room(x, *old(db), *data, *now)
                && final(db).rooms@ == old(db).rooms@.push(x)
                && final(db).next_room_id == old(db).next_room_id + 1
                && same_but_rooms(*old(db), *final(db)),
        },
{
    if data.name.as_str().unicode_len() > 0 && room_name_taken(&db.rooms, data.name.as_str(), 0) {
        return Err(AppError::database("UNIQUE constraint failed: rooms.name"));
    }
    if db.next_room_id > i32::MAX as i64 {
        return Err(AppError::not_found("机房"));
    }
    proof {
        lemma_no_zero_room(db.rooms@, db.next_room_id, data.name@);
    }
    let room = Room {
        id: db.next_room_id as i32,
        name: data.name.clone(),
        location: match &data.location {
            Some(v) => v.clone(),
            None => owned(""),
        },
        sort_order: match data.sort_order {
            Some(v) => v,
            None => 0,
        },
        created_at: Some(now.clone()),
        updated_at: Some(now.clone()),
    };
    db.rooms.push(room.clone());
    db.next_room_id = db.next_room_id + 1;
    proof {
        let ns = db.rooms@;
        let os = old(db).rooms@;
        assert(room_ids(ns) =~= room_ids(os).push(room.id));
        assert forall|a: int, b: int|
            0 <= a < ns.len() && 0 <= b < ns.len() && a != b && ns[a].name@.len() > 0 implies ns[a].name@
            != ns[b].name@ by {
            if a == os.len() as int {
                assert(ns[b] == os[b]);
                assert(room_ids(os)[b] == os[b].id);
                assert(os[b].id != 0);
            } else if b == os.len() as int {
                assert(ns[a] == os[a]);
                assert(room_ids(os)[a] == os[a].id);
                assert(os[a].id != 0);
            }
        }
    }
    Ok(room)
}

/// Creates a room at the current time (see [`insert_room_at`]).
pub fn insert_room(db: &mut Database, data: &RoomCreate) -> (r: Result<Room, AppError>)
    requires
        old(db).wf(),
    ensures
        final(db).wf(),
        match room_create_failure(*old(db), *data) {
            Some(f) => r matches Err(e) && failure_is(e, f) && *final(db) == *old(db),
            None => r matches Ok(x) && (exists|now: String| is_utc_stamp(now@) && #[trigger] is_created_room(x, *old(db), *data, now))
                && final(db).rooms@ == old(db).rooms@.push(x)
                && final(db).next_room_id == old(db).next_room_id + 1
                && same_but_rooms(*old(db), *final(db)),
        },
{
    let now = now_iso();
    insert_room_at(db, data, &now)
}

/// True when a room update changes at least one column.
pub open spec fn room_has_assignment(data: RoomUpdate) -> bool {
    !(data.name is Unset) || !(data.location is Unset) || !(data.sort_order is Unset)
}

/// Why updating room `id` fails: an emptied name, a non-empty name that
/// another room has, then a cleared location or sort order (the row could
/// no longer be read back).
pub open spec fn room_update_failure(db: Database, id: i32, data: RoomUpdate) -> Option<Failure> {
    if !room_has_assignment(data) {
        None
    } else if data.name is Clear {
        Some(Failure::Database("NOT NULL constraint failed: rooms.name"@))
    } else if data.name is Assign && data.name->0@.len() > 0 && other_room_named(db.rooms@, data.name->0@, id) {
        Some(Failure::Database(room_name_unique_text()))
    } else if data.location is Clear {
        Some(Failure::Database("Invalid column type Null at index: 2, name: location"@))
    } else if data.sort_order is Clear {
        Some(Failure::Database("Invalid column type Null at index: 3, name: sort_order"@))
    } else {
        None
    }
}

/// True when `n` is room `cur` after `data` at `now`.
pub open spec fn is_updated_room(n: Room, cur: Room, data: RoomUpdate, now: String) -> bool {
    n == Room {
        name: match data.name {
            Patch::Assign(v) => v,
            _ => cur.name,
        },
        location: match data.location {
            Patch::Assign(v) => v,
            _ => cur.location,
        },
        sort_order: match data.sort_order {
            Patch::Assign(v) => v,
            _ => cur.sort_order,
        },
        updated_at: Some(now),
        ..cur
    }
}

/// Applies a three-state update to room `id` at `now`. A missing room gives
/// `Ok(None)`; an update that changes nothing returns the room as it is.
/// On failure the database is unchanged.
pub fn update_room_at(db: &mut Database, id: i32, data: &RoomUpdate, now: &String) -> (r: Result<Option<Room>, AppError>)
    requires
        old(db).wf(),
    ensures
        final(db).wf(),
        room_at(*old(db), id) is None ==> (r matches Ok(None) && *final(db) == *old(db)),
        room_at(*old(db), id) is Some ==> ({
            let p = id_pos(room_ids(old(db).rooms@), id);
            let cur = old(db).rooms@[p];
            match room_update_failure(*old(db), id, *data) {
                Some(f) => r matches Err(e) && failure_is(e, f) && *final(db) == *old(db),
                None => if !room_has_assignment(*data) {
                    r == Ok::<Option<Room>, AppError>(Some(cur)) && *final(db) == *old(db)
                } else {
                    r matches Ok(Some(n)) && is_updated_room(n, cur, *data, *now)
                        && final(db).rooms@ == old(db).rooms@.update(p, n)
                        && same_but_rooms(*old(db), *final(db))
                        && final(db).next_room_id == old(db).next_room_id
                },
            }
        }),
{
    proof {
        lemma_id_pos_range(room_ids(db.rooms@), id);
    }
    let p = match room_position(&db.rooms, id) {
        None => return Ok(None),
        Some(p) => p,
    };
    let cur = db.rooms[p].clone();
    if data.name.is_unset() && data.location.is_unset() && data.sort_order.is_unset() {
        return Ok(Some(cur));
    }
    if let Patch::Clear = &data.name {
        return Err(AppError::database("NOT NULL constraint failed: rooms.name"));
    }
    if let Patch::Assign(v) = &data.name {
        if v.as_str().unicode_len() > 0 && room_name_taken(&db.rooms, v.as_str(), id) {
            return Err(AppError::database("UNIQUE constraint failed: rooms.name"));
        }
    }
    if let Patch::Clear = &data.location {
        return Err(AppError::database("Invalid column type Null at index: 2, name: location"));
    }
    if let Patch::Clear = &data.sort_order {
        return Err(AppError::database("Invalid column type Null at index: 3, name: sort_order"));
    }
    let n = Room {
        id: cur.id,
        name: match &data.name {
            Patch::Assign(v) => v.clone(),
            _ => cur.name.clone(),
        },
        location: match &data.location {
            Patch::Assign(v) => v.clone(),
            _ => cur.location.clone(),
        },
        sort_order: match &data.sort_order {
            Patch::Assign(v) => *v,
            _ => cur.sort_order,
        },
        created_at: copy_opt_string(&cur.created_at),
        updated_at: Some(now.clone()),
    };
    db.rooms.set(p, n.clone());
    proof {
        let os = old(db).rooms@;
        let ns = db.rooms@;
        assert(room_ids(ns) =~= room_ids(os));
        assert(cur.id == id);
        assert forall|a: int, b: int|
            0 <= a < ns.len() && 0 <= b < ns.len() && a != b && ns[a].name@.len() > 0 implies ns[a].name@
            != ns[b].name@ by {
            assert(room_ids(os)[a] == os[a].id);
            assert(room_ids(os)[b] == os[b].id);
            if a == p as int {
                if !(data.name is Unset) {
                    assert(os[b].id != id);
                    assert(!(os[b].name@ == n.name@));
                }
            } else if b == p as int {
                if !(data.name is Unset) {
                    assert(os[a].id != id);
                    assert(ns[a] == os[a]);
                    assert(!(os[a].name@ == n.name@));
                }
            }
        }
    }
    Ok(Some(n))
}

/// Applies a three-state update at the current time (see
/// [`update_room_at`]).
pub fn update_room(db: &mut Database, id: i32, data: &RoomUpdate) -> (r: Result<Option<Room>, AppError>)
    requires
        old(db).wf(),
    ensures
        final(db).wf(),
        room_at(*old(db), id) is None ==> (r matches Ok(None) && *final(db) == *old(db)),
        room_at(*old(db), id) is Some ==> ({
            let p = id_pos(room_ids(old(db).rooms@), id);
            let cur = old(db).rooms@[p];
            match room_update_failure(*old(db), id, *data) {
                Some(f) => r matches Err(e) && failure_is(e, f) && *final(db) == *old(db),
                None => if !room_has_assignment(*data) {
                    r == Ok::<Option<Room>, AppError>(Some(cur)) && *final(db) == *old(db)
                } else {
                    r matches Ok(Some(n)) && (exists|now: String| is_utc_stamp(now@) && #[trigger] is_updated_room(n, cur, *data, now))
                        && final(db).rooms@ == old(db).rooms@.update(p, n)
                        && same_but_rooms(*old(db), *final(db))
                        && final(db).next_room_id == old(db).next_room_id
                },
            }
        }),
{
    let now = now_iso();
    update_room_at(db, id, data, &now)
}

/// The first room (in id order) called `name`.
pub open spec fn first_room_named(rs: Seq<Room>, name: Seq<char>) -> Option<Room>
    decreases rs.len(),
{
    if rs.len() == 0 {
        None
    } else if rs[0].name@ == name {
        Some(rs[0])
    } else {
        first_room_named(rs.drop_first(), name)
    }
}

proof fn lemma_first_room_named(rs: Seq<Room>, name: Seq<char>)
    ensures
        first_room_named(rs, name) is None <==> !(exists|k: int| 0 <= k < rs.len() && (#[trigger] rs[k]).name@
            == name),
    decreases rs.len(),
{
    if rs.len() > 0 {
        lemma_first_room_named(rs.drop_first(), name);
        if exists|k: int| 0 <= k < rs.len() && (#[trigger] rs[k]).name@ == name {
            let k = choose|k: int| 0 <= k < rs.len() && (#[trigger] rs[k]).name@ == name;
            if k > 0 {
                assert(rs.drop_first()[k - 1] == rs[k]);
            }
        }
        if exists|k: int| 0 <= k < rs.drop_first().len() && (#[trigger] rs.drop_first()[k]).name@ == name {
            let k = choose|k: int| 0 <= k < rs.drop_first().len() && (#[trigger] rs.drop_first()[k]).name@ == name;
            assert(rs[k + 1] == rs.drop_first()[k]);
        }
    }
}

/// The id of the first room called `name`, if any.
pub fn find_room_id_by_name(db: &Database, name: &str) -> (r: Option<i32>)
    ensures
        match first_room_named(db.rooms@, name@) {
            Some(x) => r == Some(x.id),
            None => r is None,
        },
{
    let mut i: usize = 0;
    assert(db.rooms@.skip(0) =~= db.rooms@);
    while i < db.rooms.len()
        invariant
            i <= db.rooms@.len(),
            first_room_named(db.rooms@, name@) == first_room_named(db.rooms@.skip(i as int), name@),
        decreases db.rooms.len() - i,
    {
        assert(db.rooms@.skip(i as int)[0] == db.rooms@[i as int]);
        assert(db.rooms@.skip(i as int).drop_first() =~= db.rooms@.skip(i + 1));
        if str_equal(db.rooms[i].name.as_str(), name) {
            return Some(db.rooms[i].id);
        }
        i = i + 1;
    }
    None
}

/// What finding or creating the room called `name` in `a` gives: the id of
/// the first room so called, with nothing changed; else, when an id is
/// left, a new room of that name (location empty, sort order 0) appended
/// with the next id; else the missing-row error, with nothing changed.
pub open spec fn room_found_or_created(a: Database, b: Database, name: Seq<char>, r: Result<i32, AppError>) -> bool {
    match first_room_named(a.rooms@, name) {
        Some(x) => r == Ok::<i32, AppError>(x.id) && b == a,
        None => if a.next_room_id > i32::MAX {
            r matches Err(e) && failure_is(e, Failure::Missing("机房"@)) && b == a
        } else {
            &&& r == Ok::<i32, AppError>(a.next_room_id as i32)
            &&& b.rooms@.len() == a.rooms@.len() + 1
            &&& b.rooms@.last().id == a.next_room_id
            &&& b.rooms@.last().name@ == name
            &&& b.rooms@.last().location@ == ""@
            &&& b.rooms@.last().sort_order == 0
            &&& b.rooms@.drop_last() == a.rooms@
            &&& same_but_rooms(a, b)
        },
    }
}

/// The id of the room called `name`, created at `now` (location empty, sort
/// order 0) when there is none.
pub fn find_or_create_room_at(db: &mut Database, name: &str, now: &String) -> (r: Result<i32, AppError>)
    requires
        old(db).wf(),
    ensures
        final(db).wf(),
        room_found_or_created(*old(db), *final(db), name@, r),
{
    if let Some(id) = find_room_id_by_name(db, name) {
        return Ok(id);
    }
    proof {
        lemma_first_room_named(db.rooms@, name@);
        lemma_no_zero_room(db.rooms@, db.next_room_id, name@);
    }
    let data = RoomCreate { name: owned(name), location: None, sort_order: None };
    let room = insert_room_at(db, &data, now)?;
    assert(db.rooms@.drop_last() =~= old(db).rooms@);
    Ok(room.id)
}

/// Find-or-create at the current time (see [`find_or_create_room_at`]).
pub fn find_or_create_room(db: &mut Database, name: &str) -> (r: Result<i32, AppError>)
    requires
        old(db).wf(),
    ensures
        final(db).wf(),
        room_found_or_created(*old(db), *final(db), name@, r),
{
    let now = now_iso();
    find_or_create_room_at(db, name, &now)
}

/// `rs` with every rack of room `id` left without a room.
pub open spec fn roomless(rs: Seq<Rack>, id: i32) -> Seq<Rack> {
    Seq::new(
        rs.len(),
        |i: int|
            if rs[i].room_id == Some(id) {
                Rack { room_id: None, ..rs[i] }
            } else {
                rs[i]
            },
    )
}

/// Deletes room `id`; its racks stay, without a room. Returns whether a
/// room was deleted.
pub fn delete_room(db: &mut Database, id: i32) -> (r: bool)
    requires
        old(db).wf(),
    ensures
        final(db).wf(),
        final(db).racks@ == roomless(old(db).racks@, id),
        r == (id_pos(room_ids(old(db).rooms@), id) >= 0),
        r ==> final(db).rooms@ == old(db).rooms@.remove(id_pos(room_ids(old(db).rooms@), id)),
        !r ==> final(db).rooms@ == old(db).rooms@,
        final(db).devices@ == old(db).devices@,
        final(db).device_models@ == old(db).device_models@,
        final(db).settings@ == old(db).settings@,
        final(db).next_room_id == old(db).next_room_id,
        final(db).next_rack_id == old(db).next_rack_id,
        final(db).next_model_id == old(db).next_model_id,
        final(db).next_device_id == old(db).next_device_id,
{
    let mut i: usize = 0;
    while i < db.racks.len()
        invariant
            i <= db.racks@.len(),
            db.racks@.len() == old(db).racks@.len(),
            forall|k: int| 0 <= k < i ==> db.racks@[k] == #[trigger] roomless(old(db).racks@, id)[k],
            forall|k: int| i <= k < db.racks@.len() ==> db.racks@[k] == old(db).racks@[k],
            db.rooms@ == old(db).rooms@,
            db.devices@ == old(db).devices@,
            db.device_models@ == old(db).device_models@,
            db.settings@ == old(db).settings@,
            db.next_rack_id == old(db).next_rack_id,
            db.next_device_id == old(db).next_device_id,
            db.next_room_id == old(db).next_room_id,
            db.next_model_id == old(db).next_model_id,
        decreases db.racks.len() - i,
    {
        if db.racks[i].room_id == Some(id) {
            let mut rk = db.racks[i].clone();
            rk.room_id = None;
            db.racks.set(i, rk);
        }
        i = i + 1;
    }
    assert(db.racks@ =~= roomless(old(db).racks@, id));
    assert(rack_ids(db.racks@) =~= rack_ids(old(db).racks@));
    proof {
        lemma_id_pos_range(room_ids(db.rooms@), id);
    }
    match room_position(&db.rooms, id) {
        None => false,
        Some(p) => {
            let ghost before = db.rooms@;
            db.rooms.remove(p);
            proof {
                let ns = db.rooms@;
                assert(room_ids(ns) =~= room_ids(before).remove(p as int));
                assert forall|a: int, b: int| 0 <= a < b < room_ids(ns).len() implies room_ids(ns)[a]
                    < room_ids(ns)[b] by {
                    let a2 = if a < p { a } else { a + 1 };
                    let b2 = if b < p { b } else { b + 1 };
                    assert(room_ids(before)[a2] < room_ids(before)[b2]);
                }
                assert forall|k: int| 0 <= k < room_ids(ns).len() implies 1 <= #[trigger] room_ids(ns)[k]
                    < db.next_room_id by {
                    let k2 = if k < p { k } else { k + 1 };
                    assert(room_ids(ns)[k] == room_ids(before)[k2]);
                }
                assert forall|a: int, b: int|
                    0 <= a < ns.len() && 0 <= b < ns.len() && a != b && ns[a].name@.len() > 0 implies ns[a].name@
                    != ns[b].name@ by {
                    let a2 = if a < p { a } else { a + 1 };
                    let b2 = if b < p { b } else { b + 1 };
                    assert(ns[a] == before[a2] && ns[b] == before[b2]);
                }
            }
            true
        },
    }
}

/// Each room's name by its id (for an id listed twice, the name of its
/// last listing).
pub fn list_rooms_map(db: &Database) -> (r: HashMap<i32, String>)
    ensures
        forall|k: i32| r@.contains_key(k) <==> exists|i: int|
            0 <= i < rooms_ordered(db.rooms@).len() && (#[trigger] rooms_ordered(db.rooms@)[i]).id == k,
        forall|i: int|
            0 <= i < rooms_ordered(db.rooms@).len() && (forall|j: int|
                i < j < rooms_ordered(db.rooms@).len() ==> (#[trigger] rooms_ordered(db.rooms@)[j]).id != rooms_ordered(db.rooms@)[i].id)
                ==> r@[(#[trigger] rooms_ordered(db.rooms@)[i]).id] == rooms_ordered(db.rooms@)[i].name,
{
    broadcast use vstd::std_specs::hash::group_hash_axioms;

    let items = list_rooms(db);
    let mut out: HashMap<i32, String> = HashMap::new();
    let mut i: usize = 0;
    while i < items.len()
        invariant
            i <= items@.len(),
            items@ == rooms_ordered(db.rooms@),
            forall|k: i32| out@.contains_key(k) <==> exists|j: int| 0 <= j < i && (#[trigger] items@[j]).id == k,
            forall|j: int|
                0 <= j < i && (forall|l: int| j < l < i ==> (#[trigger] items@[l]).id != items@[j].id)
                    ==> out@[(#[trigger] items@[j]).id] == items@[j].name,
        decreases items.len() - i,
    {
        let ghost before = out@;
        out.insert(items[i].id, items[i].name.clone());
        proof {
            assert forall|k: i32| out@.contains_key(k) <==> exists|j: int| 0 <= j < i + 1 && (#[trigger] items@[
                j]).id == k by {
                if out@.contains_key(k) && k != items@[i as int].id {
                    assert(before.contains_key(k));
                }
                if exists|j: int| 0 <= j < i + 1 && (#[trigger] items@[j]).id == k {
                    let j = choose|j: int| 0 <= j < i + 1 && (#[trigger] items@[j]).id == k;
                    if j < i {
                        assert(before.contains_key(k));
                    }
                }
            }
            assert forall|j: int|
                0 <= j < i + 1 && (forall|l: int| j < l < i + 1 ==> (#[trigger] items@[l]).id != items@[j].id)
                    implies out@[(#[trigger] items@[j]).id] == items@[j].name by {
                if j < i {
                    assert(items@[i as int].id != items@[j].id);
                }
            }
        }
        i = i + 1;
    }
    out
}

} // verus!
