//! Checking tables read from storage against the invariant of
//! [`Database`]: the operations of the library may only be given tables
//! that pass.
use vstd::prelude::*;
use crate::db::{Database, Setting, ids_increasing, ids_bounded, room_ids, rack_ids, model_ids, device_ids,
    active_numbers_unique, room_names_unique, model_names_unique, span_fits, setting_keys_unique, is_active};
use crate::models::{Device, DeviceModel, Rack, Room};
use crate::text::str_equal;

verus! {

/// Whether ids increase strictly and lie in `1..next` with `next` at most
/// one past the largest `i32`.
fn ids_ok(ids: &Vec<i32>, next: i64) -> (r: bool)
    ensures
        r == (ids_increasing(ids@) && ids_bounded(ids@, next)),
{
    if next < 1 || next > 2147483648 {
        return false;
    }
    let mut i: usize = 0;
    while i < ids.len()
        invariant
            i <= ids@.len(),
            1 <= next <= i32::MAX + 1,
            forall|a: int, b: int| 0 <= a < b < i ==> ids@[a] < ids@[b],
            forall|a: int| 0 <= a < i ==> 1 <= #[trigger] ids@[a] < next,
        decreases ids.len() - i,
    {
        let id = ids[i];
        if id < 1 || (id as i64) >= next {
            assert(!ids_bounded(ids@, next)) by {
                assert(!(1 <= ids@[i as int] < next));
            }
            return false;
        }
        if i > 0 && ids[i - 1] >= id {
            assert(!ids_increasing(ids@)) by {
                assert(!(ids@[i - 1] < ids@[i as int]));
            }
            return false;
        }
        assert forall|a: int, b: int| 0 <= a < b < i + 1 implies ids@[a] < ids@[b] by {
            if b == i && a < i - 1 {
                assert(ids@[a] < ids@[i - 1]);
            }
        }
        i = i + 1;
    }
    true
}

fn room_id_list(s: &Vec<Room>) -> (r: Vec<i32>)
    ensures
        r@ == room_ids(s@),
{
    let mut v: Vec<i32> = Vec::new();
    let mut i: usize = 0;
    while i < s.len()
        invariant
            i <= s@.len(),
            v@ == room_ids(s@.take(i as int)),
        decreases s.len() - i,
    {
        v.push(s[i].id);
        assert(room_ids(s@.take(i + 1)) =~= room_ids(s@.take(i as int)).push(s@[i as int].id));
        i = i + 1;
    }
    assert(s@.take(s@.len() as int) =~= s@);
    v
}

fn rack_id_list(s: &Vec<Rack>) -> (r: Vec<i32>)
    ensures
        r@ == rack_ids(s@),
{
    let mut v: Vec<i32> = Vec::new();
    let mut i: usize = 0;
    while i < s.len()
        invariant
            i <= s@.len(),
            v@ == rack_ids(s@.take(i as int)),
        decreases s.len() - i,
    {
        v.push(s[i].id);
        assert(rack_ids(s@.take(i + 1)) =~= rack_ids(s@.take(i as int)).push(s@[i as int].id));
        i = i + 1;
    }
    assert(s@.take(s@.len() as int) =~= s@);
    v
}

fn model_id_list(s: &Vec<DeviceModel>) -> (r: Vec<i32>)
    ensures
        r@ == model_ids(s@),
{
    let mut v: Vec<i32> = Vec::new();
    let mut i: usize = 0;
    while i < s.len()
        invariant
            i <= s@.len(),
            v@ == model_ids(s@.take(i as int)),
        decreases s.len() - i,
    {
        v.push(s[i].id);
        assert(model_ids(s@.take(i + 1)) =~= model_ids(s@.take(i as int)).push(s@[i as int].id));
        i = i + 1;
    }
    assert(s@.take(s@.len() as int) =~= s@);
    v
}

fn device_id_list(s: &Vec<Device>) -> (r: Vec<i32>)
    ensures
        r@ == device_ids(s@),
{
    let mut v: Vec<i32> = Vec::new();
    let mut i: usize = 0;
    while i < s.len()
        invariant
            i <= s@.len(),
            v@ == device_ids(s@.take(i as int)),
        decreases s.len() - i,
    {
        v.push(s[i].id);
        assert(device_ids(s@.take(i + 1)) =~= device_ids(s@.take(i as int)).push(s@[i as int].id));
        i = i + 1;
    }
    assert(s@.take(s@.len() as int) =~= s@);
    v
}

/// Two devices in use clash on a non-empty serial or asset number.
pub open spec fn numbers_clash(a: Device, b: Device) -> bool {
    &&& is_active(a)
    &&& is_active(b)
    &&& ((a.serial_no@.len() > 0 && a.serial_no@ == b.serial_no@) || (a.asset_no@.len() > 0 && a.asset_no@
        == b.asset_no@))
}

fn clash(a: &Device, b: &Device) -> (r: bool)
    ensures
        r == numbers_clash(*a, *b),
{
    a.deleted_at.is_none() && b.deleted_at.is_none() && ((a.serial_no.as_str().unicode_len() > 0 && str_equal(
        a.serial_no.as_str(),
        b.serial_no.as_str(),
    )) || (a.asset_no.as_str().unicode_len() > 0 && str_equal(a.asset_no.as_str(), b.asset_no.as_str())))
}

fn numbers_ok(ds: &Vec<Device>) -> (r: bool)
    ensures
        r == active_numbers_unique(ds@),
{
    let mut i: usize = 0;
    while i < ds.len()
        invariant
            i <= ds@.len(),
            forall|a: int, b: int| 0 <= a < i && 0 <= b < ds@.len() && a != b ==> !numbers_clash(#[trigger] ds@[a], #[trigger] ds@[b]),
        decreases ds.len() - i,
    {
        let mut j: usize = 0;
        while j < ds.len()
            invariant
                i < ds@.len(),
                j <= ds@.len(),
                forall|b: int| 0 <= b < j && b != i ==> !numbers_clash(ds@[i as int], #[trigger] ds@[b]),
            decreases ds.len() - j,
        {
            if j != i && clash(&ds[i], &ds[j]) {
                assert(!active_numbers_unique(ds@)) by {
                    let (x, y) = (i as int, j as int);
                    assert(numbers_clash(ds@[x], ds@[y]));
                }
                return false;
            }
            j = j + 1;
        }
        i = i + 1;
    }
    assert forall|x: int, y: int|
        0 <= x < ds@.len() && 0 <= y < ds@.len() && x != y && is_active(ds@[x]) && is_active(ds@[y]) implies {
        &&& (ds@[x].serial_no@.len() > 0 ==> ds@[x].serial_no@ != ds@[y].serial_no@)
        &&& (ds@[x].asset_no@.len() > 0 ==> ds@[x].asset_no@ != ds@[y].asset_no@)
    } by {
        assert(!numbers_clash(ds@[x], ds@[y]));
    }
    true
}

fn spans_ok(ds: &Vec<Device>) -> (r: bool)
    ensures
        r == forall|i: int| 0 <= i < ds@.len() ==> span_fits(#[trigger] ds@[i]),
{
    let mut i: usize = 0;
    while i < ds.len()
        invariant
            i <= ds@.len(),
            forall|a: int| 0 <= a < i ==> span_fits(#[trigger] ds@[a]),
        decreases ds.len() - i,
    {
        match (ds[i].start_u, ds[i].end_u) {
            (Some(s), Some(e)) => {
                if e >= s && (e as i64) - (s as i64) + 1 > 2147483647 {
                    assert(!span_fits(ds@[i as int]));
                    return false;
                }
            },
            _ => {},
        }
        i = i + 1;
    }
    true
}

fn room_names_ok(rs: &Vec<Room>) -> (r: bool)
    ensures
        r == room_names_unique(rs@),
{
    let mut i: usize = 0;
    while i < rs.len()
        invariant
            i <= rs@.len(),
            forall|a: int, b: int| 0 <= a < i && 0 <= b < rs@.len() && a != b && rs@[a].name@.len() > 0 ==> #[trigger] rs@[a].name@ != #[trigger] rs@[b].name@,
        decreases rs.len() - i,
    {
        if rs[i].name.as_str().unicode_len() > 0 {
            let mut j: usize = 0;
            while j < rs.len()
                invariant
                    i < rs@.len(),
                    j <= rs@.len(),
                    rs@[i as int].name@.len() > 0,
                    forall|b: int| 0 <= b < j && b != i ==> rs@[i as int].name@ != #[trigger] rs@[b].name@,
                decreases rs.len() - j,
            {
                if j != i && str_equal(rs[i].name.as_str(), rs[j].name.as_str()) {
                    return false;
                }
                j = j + 1;
            }
        }
        i = i + 1;
    }
    true
}

fn model_names_ok(ms: &Vec<DeviceModel>) -> (r: bool)
    ensures
        r == model_names_unique(ms@),
{
    let mut i: usize = 0;
    while i < ms.len()
        invariant
            i <= ms@.len(),
            forall|a: int, b: int| 0 <= a < i && 0 <= b < ms@.len() && a != b && ms@[a].name@.len() > 0 ==> #[trigger] ms@[a].name@ != #[trigger] ms@[b].name@,
        decreases ms.len() - i,
    {
        if ms[i].name.as_str().unicode_len() > 0 {
            let mut j: usize = 0;
            while j < ms.len()
                invariant
                    i < ms@.len(),
                    j <= ms@.len(),
                    ms@[i as int].name@.len() > 0,
                    forall|b: int| 0 <= b < j && b != i ==> ms@[i as int].name@ != #[trigger] ms@[b].name@,
                decreases ms.len() - j,
            {
                if j != i && str_equal(ms[i].name.as_str(), ms[j].name.as_str()) {
                    return false;
                }
                j = j + 1;
            }
        }
        i = i + 1;
    }
    true
}

fn setting_keys_ok(s: &Vec<Setting>) -> (r: bool)
    ensures
        r == setting_keys_unique(s@),
{
    let mut i: usize = 0;
    while i < s.len()
        invariant
            i <= s@.len(),
            forall|a: int, b: int| 0 <= a < i && 0 <= b < s@.len() && a != b ==> #[trigger] s@[a].key@ != #[trigger] s@[b].key@,
        decreases s.len() - i,
    {
        let mut j: usize = 0;
        while j < s.len()
            invariant
                i < s@.len(),
                j <= s@.len(),
                forall|b: int| 0 <= b < j && b != i ==> s@[i as int].key@ != #[trigger] s@[b].key@,
            decreases s.len() - j,
        {
            if j != i && str_equal(s[i].key.as_str(), s[j].key.as_str()) {
                return false;
            }
            j = j + 1;
        }
        i = i + 1;
    }
    true
}

impl Database {
    /// Whether the tables satisfy the invariant ([`Database::wf`]): what
    /// storage hands over must pass before any operation is called.
    pub fn is_well_formed(&self) -> (r: bool)
        ensures
            r == self.wf(),
    {
        let a = ids_ok(&room_id_list(&self.rooms), self.next_room_id);
        let b = ids_ok(&rack_id_list(&self.racks), self.next_rack_id);
        let c = ids_ok(&model_id_list(&self.device_models), self.next_model_id);
        let d = ids_ok(&device_id_list(&self.devices), self.next_device_id);
        let e = numbers_ok(&self.devices);
        let f = room_names_ok(&self.rooms);
        let g = model_names_ok(&self.device_models);
        let h = spans_ok(&self.devices);
        let k = setting_keys_ok(&self.settings);
        a && b && c && d && e && f && g && h && k
    }
}

} // verus!
