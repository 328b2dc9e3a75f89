//! The device models table: listing by name, creation with the schema's
//! defaults, three-state updates under the unique-name rule, deletion that
//! leaves the model's devices without a model, and find-or-create by name.
use vstd::prelude::*;
use std::collections::HashMap;
use crate::db::{Database, id_pos, model_ids, device_ids, model_position, ids_increasing, ids_bounded,
    model_names_unique, lemma_id_pos_range};
use crate::db::devices::{Failure, failure_is};
use crate::error::AppError;
use crate::models::{DeviceModel, DeviceModelCreate, DeviceModelUpdate, Device, Patch, copy_opt_string};
use crate::text::{owned, str_equal, str_before, text_before, lemma_text_before_irreflexive,
    lemma_text_before_transitive, lemma_text_before_total};

verus! {

/// True when the two databases differ at most in the device models table.
pub open spec fn same_but_models(a: Database, b: Database) -> bool {
    &&& a.rooms@ == b.rooms@
    &&& a.racks@ == b.racks@
    &&& a.devices@ == b.devices@
    &&& a.settings@ == b.settings@
    &&& a.next_room_id == b.next_room_id
    &&& a.next_rack_id == b.next_rack_id
    &&& a.next_device_id == b.next_device_id
}

/// `s` with `m` inserted after every model whose name does not come after
/// `m`'s.
pub open spec fn insert_model_ordered(s: Seq<DeviceModel>, m: DeviceModel) -> Seq<DeviceModel>
    decreases s.len(),
{
    if s.len() == 0 {
        seq![m]
    } else if text_before(m.name@, s[0].name@) {
        seq![m] + s
    } else {
        seq![s[0]] + insert_model_ordered(s.drop_first(), m)
    }
}

/// Models by name (code point order); equal names in table (id) order.
pub open spec fn models_ordered(s: Seq<DeviceModel>) -> Seq<DeviceModel>
    decreases s.len(),
{
    if s.len() == 0 {
        s
    } else {
        insert_model_ordered(models_ordered(s.drop_last()), s.last())
    }
}

proof fn lemma_insert_model_at(s: Seq<DeviceModel>, m: DeviceModel, p: int)
    requires
        0 <= p <= s.len(),
        forall|k: int| 0 <= k < p ==> !text_before(m.name@, #[trigger] s[k].name@),
        p < s.len() ==> text_before(m.name@, s[p].name@),
    ensures
        insert_model_ordered(s, m) == s.insert(p, m),
    decreases s.len(),
{
    if s.len() == 0 {
        assert(s.insert(p, m) =~= seq![m]);
    } else if p == 0 {
        assert(s.insert(0, m) =~= seq![m] + s);
    } else {
        assert forall|k: int| 0 <= k < p - 1 implies !text_before(m.name@, #[trigger] s.drop_first()[k].name@) by {
            assert(s.drop_first()[k] == s[k + 1]);
        }
        lemma_insert_model_at(s.drop_first(), m, p - 1);
        assert(seq![s[0]] + s.drop_first().insert(p - 1, m) =~= s.insert(p, m));
    }
}

/// All device models, by name and then id.
pub fn list_device_models(db: &Database) -> (r: Vec<DeviceModel>)
    ensures
        r@ == models_ordered(db.device_models@),
{
    let mut out: Vec<DeviceModel> = Vec::new();
    let mut i: usize = 0;
    while i < db.device_models.len()
        invariant
            i <= db.device_models@.len(),
            out@ == models_ordered(db.device_models@.take(i as int)),
        decreases db.device_models.len() - i,
    {
        assert(db.device_models@.take(i + 1).drop_last() =~= db.device_models@.take(i as int));
        assert(db.device_models@.take(i + 1).last() == db.device_models@[i as int]);
        let m = db.device_models[i].clone();
        let mut p: usize = 0;
        while p < out.len()
            invariant
                p <= out@.len(),
                forall|k: int| 0 <= k < p ==> !text_before(m.name@, #[trigger] out@[k].name@),
            ensures
                p <= out@.len(),
                forall|k: int| 0 <= k < p ==> !text_before(m.name@, #[trigger] out@[k].name@),
                p < out@.len() ==> text_before(m.name@, out@[p as int].name@),
            decreases out.len() - p,
        {
            if str_before(m.name.as_str(), out[p].name.as_str()) {
                break;
            }
            p = p + 1;
        }
        proof {
            lemma_insert_model_at(out@, m, p as int);
        }
        out.insert(p, m);
        i = i + 1;
    }
    assert(db.device_models@.take(db.device_models@.len() as int) =~= db.device_models@);
    out
}

/// The device model with `id`, if any.
pub open spec fn model_at(db: Database, id: i32) -> Option<DeviceModel> {
    let p = id_pos(model_ids(db.device_models@), id);
    if p >= 0 {
        Some(db.device_models@[p])
    } else {
        None
    }
}

/// The device model with `id`, if any.
pub fn get_device_model(db: &Database, id: i32) -> (r: Option<DeviceModel>)
    requires
        db.wf(),
    ensures
        r == model_at(*db, id),
{
    proof {
        lemma_id_pos_range(model_ids(db.device_models@), id);
    }
    match model_position(&db.device_models, id) {
        Some(p) => Some(db.device_models[p].clone()),
        None => None,
    }
}

/// True when a model other than `id` is called `name`.
pub open spec fn other_model_named(ms: Seq<DeviceModel>, name: Seq<char>, id: i32) -> bool {
    exists|k: int| 0 <= k < ms.len() && ms[k].id != id && (#[trigger] ms[k]).name@ == name
}

/// Whether a model other than `id` is called `name`.
fn model_name_taken(models: &Vec<DeviceModel>, name: &str, id: i32) -> (r: bool)
    ensures
        r == other_model_named(models@, name@, id),
{
    let mut i: usize = 0;
    while i < models.len()
        invariant
            i <= models@.len(),
            forall|k: int| 0 <= k < i ==> !(models@[k].id != id && (#[trigger] models@[k]).name@ == name@),
        decreases models.len() - i,
    {
        if models[i].id != id && str_equal(models[i].name.as_str(), name) {
            assert(models@[i as int].id != id && models@[i as int].name@ == name@);
            return true;
        }
        i = i + 1;
    }
    false
}

/// The text of the schema's uniqueness failure on model names.
pub open spec fn model_name_unique_text() -> Seq<char> {
    "UNIQUE constraint failed: device_models.name"@
}

/// Why creating a model fails: a non-empty name that another model has,
/// then an id beyond the `i32` range.
pub open spec fn model_create_failure(db: Database, data: DeviceModelCreate) -> Option<Failure> {
    if data.name@.len() > 0 && other_model_named(db.device_models@, data.name@, 0) {
        Some(Failure::Database(model_name_unique_text()))
    } else if db.next_model_id > i32::MAX {
        Some(Failure::Missing("型号"@))
    } else {
        None
    }
}

/// True when `m` is the model that creating `data` in `db` makes:
/// manufacturer empty, type `server`, height 1 and power 0 unless given; a
/// model carries no timestamps.
pub open spec fn is_created_model(m: DeviceModel, db: Database, data: DeviceModelCreate) -> bool {
    &&& m.id == db.next_model_id
    &&& m.name == data.name
    &&& m.manufacturer@ == (if data.manufacturer is Some { data.manufacturer->0@ } else { ""@ })
    &&& m.device_type@ == (if data.device_type is Some { data.device_type->0@ } else { "server"@ })
    &&& m.height_u == (if data.height_u is Some { data.height_u->0 } else { 1 })
    &&& m.power_watt == (if data.power_watt is Some { data.power_watt->0 } else { 0 })
    &&& m.created_at is None
    &&& m.updated_at is None
}

proof fn lemma_no_zero_model(ms: Seq<DeviceModel>, next: i64, name: Seq<char>)
    requires
        ids_bounded(model_ids(ms), next),
    ensures
        other_model_named(ms, name, 0) == (exists|k: int| 0 <= k < ms.len() && (#[trigger] ms[k]).name@ == name),
{
    if exists|k: int| 0 <= k < ms.len() && (#[trigger] ms[k]).name@ == name {
        let k = choose|k: int| 0 <= k < ms.len() && (#[trigger] ms[k]).name@ == name;
        assert(model_ids(ms)[k] == ms[k].id);
    }
}

/// What creating a model from `data` in `a` gives: the failure, with
/// nothing changed; else the new model appended with the next id.
pub open spec fn model_inserted(a: Database, b: Database, data: DeviceModelCreate, r: Result<DeviceModel, AppError>) -> bool {
    match model_create_failure(a, data) {
        Some(f) => r matches Err(e) && failure_is(e, f) && b == a,
        None => r matches Ok(x) && is_created_model(x, a, data)
            && b.device_models@ == a.device_models@.push(x)
            && b.next_model_id == a.next_model_id + 1
            && same_but_models(a, b),
    }
}

/// Creates a device model with the schema's defaults. On failure the
/// database is unchanged.
pub fn insert_device_model(db: &mut Database, data: &DeviceModelCreate) -> (r: Result<DeviceModel, AppError>)
    requires
        old(db).wf(),
    ensures
        final(db).wf(),
        model_inserted(*old(db), *final(db), *data, r),
{
    if data.name.as_str().unicode_len() > 0 && model_name_taken(&db.device_models, data.name.as_str(), 0) {
        return Err(AppError::database("UNIQUE constraint failed: device_models.name"));
    }
    if db.next_model_id > i32::MAX as i64 {
        return Err(AppError::not_found("型号"));
    }
    proof {
        lemma_no_zero_model(db.device_models@, db.next_model_id, data.name@);
    }
    let m = DeviceModel {
        id: db.next_model_id as i32,
        name: data.name.clone(),
        manufacturer: match &data.manufacturer {
            Some(v) => v.clone(),
            None => owned(""),
        },
        device_type: match &data.device_type {
            Some(v) => v.clone(),
            None => owned("server"),
        },
        height_u: match data.height_u {
            Some(v) => v,
            None => 1,
        },
        power_watt: match data.power_watt {
            Some(v) => v,
            None => 0,
        },
        created_at: None,
        updated_at: None,
    };
    db.device_models.push(m.clone());
    db.next_model_id = db.next_model_id + 1;
    proof {
        let ns = db.device_models@;
        let os = old(db).device_models@;
        assert(model_ids(ns) =~= model_ids(os).push(m.id));
        assert forall|a: int, b: int|
            0 <= a < ns.len() && 0 <= b < ns.len() && a != b && ns[a].name@.len() > 0 implies ns[a].name@
            != ns[b].name@ by {
            if a == os.len() as int {
                assert(ns[b] == os[b]);
                assert(model_ids(os)[b] == os[b].id);
            } else if b == os.len() as int {
                assert(ns[a] == os[a]);
                assert(model_ids(os)[a] == os[a].id);
            }
        }
    }
    Ok(m)
}

/// True when a model update changes at least one column.
pub open spec fn model_has_assignment(data: DeviceModelUpdate) -> bool {
    !(data.name is Unset) || !(data.manufacturer is Unset) || !(data.device_type is Unset) || !(
    data.height_u is Unset) || !(data.power_watt is Unset)
}

/// Why updating model `id` fails: an emptied name, type or height, a
/// non-empty name that another model has, then a cleared manufacturer or
/// power (the row could no longer be read back).
pub open spec fn model_update_failure(db: Database, id: i32, data: DeviceModelUpdate) -> Option<Failure> {
    if !model_has_assignment(data) {
        None
    } else if data.name is Clear {
        Some(Failure::Database("NOT NULL constraint failed: device_models.name"@))
    } else if data.device_type is Clear {
        Some(Failure::Database("NOT NULL constraint failed: device_models.type"@))
    } else if data.height_u is Clear {
        Some(Failure::Database("NOT NULL constraint failed: device_models.height_u"@))
    } else if data.name is Assign && data.name->0@.len() > 0 && other_model_named(
        db.device_models@,
        data.name->0@,
        id,
    ) {
        Some(Failure::Database(model_name_unique_text()))
    } else if data.manufacturer is Clear {
        Some(Failure::Database("Invalid column type Null at index: 2, name: manufacturer"@))
    } else if data.power_watt is Clear {
        Some(Failure::Database("Invalid column type Null at index: 5, name: power_watt"@))
    } else {
        None
    }
}

/// True when `n` is model `cur` after `data` (timestamps untouched).
pub open spec fn is_updated_model(n: DeviceModel, cur: DeviceModel, data: DeviceModelUpdate) -> bool {
    n == DeviceModel {
        name: match data.name {
            Patch::Assign(v) => v,
            _ => cur.name,
        },
        manufacturer: match data.manufacturer {
            Patch::Assign(v) => v,
            _ => cur.manufacturer,
        },
        device_type: match data.device_type {
            Patch::Assign(v) => v,
            _ => cur.device_type,
        },
        height_u: match data.height_u {
            Patch::Assign(v) => v,
            _ => cur.height_u,
        },
        power_watt: match data.power_watt {
            Patch::Assign(v) => v,
            _ => cur.power_watt,
        },
        ..cur
    }
}

fn patched_text(p: &Patch<String>, cur: &String) -> (r: String)
    ensures
        r == (match *p {
            Patch::Assign(v) => v,
            _ => *cur,
        }),
{
    match p {
        Patch::Assign(v) => v.clone(),
        _ => cur.clone(),
    }
}

fn patched_int(p: &Patch<i32>, cur: i32) -> (r: i32)
    ensures
        r == (match *p {
            Patch::Assign(v) => v,
            _ => cur,
        }),
{
    match p {
        Patch::Assign(v) => *v,
        _ => cur,
    }
}

/// Applies a three-state update to model `id`. A missing model gives
/// `Ok(None)`; an update that changes nothing returns the model as it is.
/// On failure the database is unchanged.
pub fn update_device_model(db: &mut Database, id: i32, data: &DeviceModelUpdate) -> (r: Result<Option<DeviceModel>, AppError>)
    requires
        old(db).wf(),
    ensures
        final(db).wf(),
        model_at(*old(db), id) is None ==> (r matches Ok(None) && *final(db) == *old(db)),
        model_at(*old(db), id) is Some ==> ({
            let p = id_pos(model_ids(old(db).device_models@), id);
            let cur = old(db).device_models@[p];
            match model_update_failure(*old(db), id, *data) {
                Some(f) => r matches Err(e) && failure_is(e, f) && *final(db) == *old(db),
                None => if !model_has_assignment(*data) {
                    r == Ok::<Option<DeviceModel>, AppError>(Some(cur)) && *final(db) == *old(db)
                } else {
                    r matches Ok(Some(n)) && is_updated_model(n, cur, *data)
                        && final(db).device_models@ == old(db).device_models@.update(p, n)
                        && same_but_models(*old(db), *final(db))
                        && final(db).next_model_id == old(db).next_model_id
                },
            }
        }),
{
    proof {
        lemma_id_pos_range(model_ids(db.device_models@), id);
    }
    let p = match model_position(&db.device_models, id) {
        None => return Ok(None),
        Some(p) => p,
    };
    let cur = db.device_models[p].clone();
    if data.name.is_unset() && data.manufacturer.is_unset() && data.device_type.is_unset()
        && data.height_u.is_unset() && data.power_watt.is_unset() {
        return Ok(Some(cur));
    }
    if let Patch::Clear = &data.name {
        return Err(AppError::database("NOT NULL constraint failed: device_models.name"));
    }
    if let Patch::Clear = &data.device_type {
        return Err(AppError::database("NOT NULL constraint failed: device_models.type"));
    }
    if let Patch::Clear = &data.height_u {
        return Err(AppError::database("NOT NULL constraint failed: device_models.height_u"));
    }
    if let Patch::Assign(v) = &data.name {
        if v.as_str().unicode_len() > 0 && model_name_taken(&db.device_models, v.as_str(), id) {
            return Err(AppError::database("UNIQUE constraint failed: device_models.name"));
        }
    }
    if let Patch::Clear = &data.manufacturer {
        return Err(AppError::database("Invalid column type Null at index: 2, name: manufacturer"));
    }
    if let Patch::Clear = &data.power_watt {
        return Err(AppError::database("Invalid column type Null at index: 5, name: power_watt"));
    }
    let n = DeviceModel {
        id: cur.id,
        name: patched_text(&data.name, &cur.name),
        manufacturer: patched_text(&data.manufacturer, &cur.manufacturer),
        device_type: patched_text(&data.device_type, &cur.device_type),
        height_u: patched_int(&data.height_u, cur.height_u),
        power_watt: patched_int(&data.power_watt, cur.power_watt),
        created_at: copy_opt_string(&cur.created_at),
        updated_at: copy_opt_string(&cur.updated_at),
    };
    db.device_models.set(p, n.clone());
    proof {
        let os = old(db).device_models@;
        let ns = db.device_models@;
        assert(model_ids(ns) =~= model_ids(os));
        assert(cur.id == id);
        assert forall|a: int, b: int|
            0 <= a < ns.len() && 0 <= b < ns.len() && a != b && ns[a].name@.len() > 0 implies ns[a].name@
            != ns[b].name@ by {
            assert(model_ids(os)[a] == os[a].id);
            assert(model_ids(os)[b] == os[b].id);
            if a == p as int {
                if !(data.name is Unset) {
                    assert(os[b].id != id);
                    assert(!(os[b].name@ == n.name@));
                }
            } else if b == p as int {
                if !(data.name is Unset) {
                    assert(os[a].id != id);
                    assert(ns[a] == os[a]);
                    assert(!(os[a].name@ == n.name@));
                }
            }
        }
    }
    Ok(Some(n))
}

/// `ds` with every device of model `id` left without a model.
pub open spec fn modelless(ds: Seq<Device>, id: i32) -> Seq<Device> {
    Seq::new(
        ds.len(),
        |i: int|
            if ds[i].device_model_id == Some(id) {
                Device { device_model_id: None, ..ds[i] }
            } else {
                ds[i]
            },
    )
}

/// Deletes model `id`; its devices stay, without a model. Returns whether a
/// model was deleted.
pub fn delete_device_model(db: &mut Database, id: i32) -> (r: bool)
    requires
        old(db).wf(),
    ensures
        final(db).wf(),
        final(db).devices@ == modelless(old(db).devices@, id),
        r == (id_pos(model_ids(old(db).device_models@), id) >= 0),
        r ==> final(db).device_models@ == old(db).device_models@.remove(
            id_pos(model_ids(old(db).device_models@), id),
        ),
        !r ==> final(db).device_models@ == old(db).device_models@,
        final(db).rooms@ == old(db).rooms@,
        final(db).racks@ == old(db).racks@,
        final(db).settings@ == old(db).settings@,
        final(db).next_room_id == old(db).next_room_id,
        final(db).next_rack_id == old(db).next_rack_id,
        final(db).next_model_id == old(db).next_model_id,
        final(db).next_device_id == old(db).next_device_id,
{
    let mut i: usize = 0;
    while i < db.devices.len()
        invariant
            i <= db.devices@.len(),
            db.devices@.len() == old(db).devices@.len(),
            forall|k: int| 0 <= k < i ==> db.devices@[k] == #[trigger] modelless(old(db).devices@, id)[k],
            forall|k: int| i <= k < db.devices@.len() ==> db.devices@[k] == old(db).devices@[k],
            db.rooms@ == old(db).rooms@,
            db.racks@ == old(db).racks@,
            db.device_models@ == old(db).device_models@,
            db.settings@ == old(db).settings@,
            db.next_rack_id == old(db).next_rack_id,
            db.next_device_id == old(db).next_device_id,
            db.next_room_id == old(db).next_room_id,
            db.next_model_id == old(db).next_model_id,
        decreases db.devices.len() - i,
    {
        if db.devices[i].device_model_id == Some(id) {
            let mut d = db.devices[i].clone();
            d.device_model_id = None;
            db.devices.set(i, d);
        }
        i = i + 1;
    }
    assert(db.devices@ =~= modelless(old(db).devices@, id));
    proof {
        let os = old(db).devices@;
        let ns = db.devices@;
        assert(device_ids(ns) =~= device_ids(os));
        assert forall|a: int, b: int|
            0 <= a < ns.len() && 0 <= b < ns.len() && a != b && crate::db::is_active(ns[a])
                && crate::db::is_active(ns[b]) implies {
            &&& (ns[a].serial_no@.len() > 0 ==> ns[a].serial_no@ != ns[b].serial_no@)
            &&& (ns[a].asset_no@.len() > 0 ==> ns[a].asset_no@ != ns[b].asset_no@)
        } by {
            assert(crate::db::is_active(os[a]) && crate::db::is_active(os[b]));
        }
        assert forall|k: int| 0 <= k < ns.len() implies crate::db::span_fits(#[trigger] ns[k]) by {
            assert(crate::db::span_fits(os[k]));
        }
    }
    proof {
        lemma_id_pos_range(model_ids(db.device_models@), id);
    }
    match model_position(&db.device_models, id) {
        None => false,
        Some(p) => {
            let ghost before = db.device_models@;
            db.device_models.remove(p);
            proof {
                let ns = db.device_models@;
                assert(model_ids(ns) =~= model_ids(before).remove(p as int));
                assert forall|a: int, b: int| 0 <= a < b < model_ids(ns).len() implies model_ids(ns)[a]
                    < model_ids(ns)[b] by {
                    let a2 = if a < p { a } else { a + 1 };
                    let b2 = if b < p { b } else { b + 1 };
                    assert(model_ids(before)[a2] < model_ids(before)[b2]);
                }
                assert forall|k: int| 0 <= k < model_ids(ns).len() implies 1 <= #[trigger] model_ids(ns)[k]
                    < db.next_model_id by {
                    let k2 = if k < p { k } else { k + 1 };
                    assert(model_ids(ns)[k] == model_ids(before)[k2]);
                }
                assert forall|a: int, b: int|
                    0 <= a < ns.len() && 0 <= b < ns.len() && a != b && ns[a].name@.len() > 0 implies ns[a].name@
                    != ns[b].name@ by {
                    let a2 = if a < p { a } else { a + 1 };
                    let b2 = if b < p { b } else { b + 1 };
                    assert(ns[a] == before[a2] && ns[b] == before[b2]);
                }
            }
            true
        },
    }
}

/// Each model's name by its id (for an id listed twice, the name of its
/// last listing).
pub fn list_models_map(db: &Database) -> (r: HashMap<i32, String>)
    ensures
        forall|k: i32| r@.contains_key(k) <==> exists|i: int|
            0 <= i < models_ordered(db.device_models@).len() && (#[trigger] models_ordered(db.device_models@)[i]).id == k,
        forall|i: int|
            0 <= i < models_ordered(db.device_models@).len() && (forall|j: int|
                i < j < models_ordered(db.device_models@).len() ==> (#[trigger] models_ordered(db.device_models@)[j]).id
                    != models_ordered(db.device_models@)[i].id) ==> r@[(#[trigger] models_ordered(
                db.device_models@,
            )[i]).id] == models_ordered(db.device_models@)[i].name,
{
    broadcast use vstd::std_specs::hash::group_hash_axioms;

    let models = list_device_models(db);
    let mut out: HashMap<i32, String> = HashMap::new();
    let mut i: usize = 0;
    while i < models.len()
        invariant
            i <= models@.len(),
            models@ == models_ordered(db.device_models@),
            forall|k: i32| out@.contains_key(k) <==> exists|j: int| 0 <= j < i && (#[trigger] models@[j]).id == k,
            forall|j: int|
                0 <= j < i && (forall|l: int| j < l < i ==> (#[trigger] models@[l]).id != models@[j].id)
                    ==> out@[(#[trigger] models@[j]).id] == models@[j].name,
        decreases models.len() - i,
    {
        let ghost before = out@;
        out.insert(models[i].id, models[i].name.clone());
        proof {
            assert forall|k: i32| out@.contains_key(k) <==> exists|j: int| 0 <= j < i + 1 && (#[trigger] models@[
                j]).id == k by {
                if out@.contains_key(k) && k != models@[i as int].id {
                    assert(before.contains_key(k));
                }
                if exists|j: int| 0 <= j < i + 1 && (#[trigger] models@[j]).id == k {
                    let j = choose|j: int| 0 <= j < i + 1 && (#[trigger] models@[j]).id == k;
                    if j < i {
                        assert(before.contains_key(k));
                    }
                }
            }
            assert forall|j: int|
                0 <= j < i + 1 && (forall|l: int| j < l < i + 1 ==> (#[trigger] models@[l]).id != models@[j].id)
                    implies out@[(#[trigger] models@[j]).id] == models@[j].name by {
                if j < i {
                    assert(models@[i as int].id != models@[j].id);
                }
            }
        }
        i = i + 1;
    }
    out
}

/// The first model (in id order) called `name`.
pub open spec fn first_model_named(ms: Seq<DeviceModel>, name: Seq<char>) -> Option<DeviceModel>
    decreases ms.len(),
{
    if ms.len() == 0 {
        None
    } else if ms[0].name@ == name {
        Some(ms[0])
    } else {
        first_model_named(ms.drop_first(), name)
    }
}

proof fn lemma_first_model_named(ms: Seq<DeviceModel>, name: Seq<char>)
    ensures
        first_model_named(ms, name) is None <==> !(exists|k: int| 0 <= k < ms.len() && (#[trigger] ms[k]).name@
            == name),
    decreases ms.len(),
{
    if ms.len() > 0 {
        lemma_first_model_named(ms.drop_first(), name);
        if exists|k: int| 0 <= k < ms.len() && (#[trigger] ms[k]).name@ == name {
            let k = choose|k: int| 0 <= k < ms.len() && (#[trigger] ms[k]).name@ == name;
            if k > 0 {
                assert(ms.drop_first()[k - 1] == ms[k]);
            }
        }
        if exists|k: int| 0 <= k < ms.drop_first().len() && (#[trigger] ms.drop_first()[k]).name@ == name {
            let k = choose|k: int| 0 <= k < ms.drop_first().len() && (#[trigger] ms.drop_first()[k]).name@ == name;
            assert(ms[k + 1] == ms.drop_first()[k]);
        }
    }
}

/// The id of the first model called `name`, if any.
pub fn find_model_id_by_name(db: &Database, name: &str) -> (r: Option<i32>)
    ensures
        match first_model_named(db.device_models@, name@) {
            Some(x) => r == Some(x.id),
            None => r is None,
        },
{
    let mut i: usize = 0;
    assert(db.device_models@.skip(0) =~= db.device_models@);
    while i < db.device_models.len()
        invariant
            i <= db.device_models@.len(),
            first_model_named(db.device_models@, name@) == first_model_named(
                db.device_models@.skip(i as int),
                name@,
            ),
        decreases db.device_models.len() - i,
    {
        assert(db.device_models@.skip(i as int)[0] == db.device_models@[i as int]);
        assert(db.device_models@.skip(i as int).drop_first() =~= db.device_models@.skip(i + 1));
        if str_equal(db.device_models[i].name.as_str(), name) {
            return Some(db.device_models[i].id);
        }
        i = i + 1;
    }
    None
}

/// What finding or creating the model called `name` in `a` gives: the id
/// of the first model so called, with nothing changed; else, when an id is
/// left, a new model of that name with the schema's defaults appended with
/// the next id; else the missing-row error, with nothing changed.
pub open spec fn model_found_or_created(a: Database, b: Database, name: Seq<char>, r: Result<i32, AppError>) -> bool {
    match first_model_named(a.device_models@, name) {
        Some(x) => r == Ok::<i32, AppError>(x.id) && b == a,
        None => if a.next_model_id > i32::MAX {
            r matches Err(e) && failure_is(e, Failure::Missing("型号"@)) && b == a
        } else {
            &&& r == Ok::<i32, AppError>(a.next_model_id as i32)
            &&& b.device_models@.len() == a.device_models@.len() + 1
            &&& b.device_models@.last().name@ == name
            &&& is_created_model(
                b.device_models@.last(),
                a,
                DeviceModelCreate {
                    name: b.device_models@.last().name,
                    manufacturer: None,
                    device_type: None,
                    height_u: None,
                    power_watt: None,
                },
            )
            &&& b.device_models@.drop_last() == a.device_models@
            &&& same_but_models(a, b)
        },
    }
}

/// The id of the model called `name`, created (type `server`, other columns
/// at their defaults) when there is none.
pub fn find_or_create_model(db: &mut Database, name: &str) -> (r: Result<i32, AppError>)
    requires
        old(db).wf(),
    ensures
        final(db).wf(),
        model_found_or_created(*old(db), *final(db), name@, r),
{
    if let Some(id) = find_model_id_by_name(db, name) {
        return Ok(id);
    }
    proof {
        lemma_first_model_named(db.device_models@, name@);
        lemma_no_zero_model(db.device_models@, db.next_model_id, name@);
    }
    let data = DeviceModelCreate {
        name: owned(name),
        manufacturer: None,
        device_type: None,
        height_u: None,
        power_watt: None,
    };
    let m = insert_device_model(db, &data)?;
    assert(db.device_models@.drop_last() =~= old(db).device_models@);
    Ok(m.id)
}

} // verus!
