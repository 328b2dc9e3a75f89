//! The figures of the HTML report: the device table, the status counts, the
//! slot use of each room (bar chart) and the share of each device type
//! (stacked bar), all in integers.
use vstd::prelude::*;
use crate::db::{Database, is_active, rack_ids, id_pos, device_ids};
use crate::db::devices::rack_in_room;
use crate::db::rooms::{list_rooms, rooms_ordered};
use crate::db::device_models::{model_at, get_device_model};
use crate::export::{active_by_name, active_devices, model_name_of, rack_name_of, room_name_of, model_name_for,
    rack_name_for, room_name_for};
use crate::models::{Device, Rack, Room};
use crate::text::{owned, str_equal};

verus! {

/// Width in pixels of a full bar of the room chart.
pub const BAR_MAX_PX: i32 = 320;

/// Width in pixels of the full stacked bar of device types.
pub const STACK_MAX_PX: i32 = 480;

/// The label of the `i`-th device type.
pub open spec fn type_label_at(i: int) -> Seq<char> {
    if i == 0 {
        "服务器"@
    } else if i == 1 {
        "交换机"@
    } else if i == 2 {
        "路由器"@
    } else if i == 3 {
        "存储阵列"@
    } else if i == 4 {
        "NAS 存储"@
    } else if i == 5 {
        "网安设备"@
    } else if i == 6 {
        "负载均衡"@
    } else {
        "其他"@
    }
}

/// The colour of the `i`-th device type.
pub open spec fn type_color_at(i: int) -> Seq<char> {
    if i == 0 {
        "#2f80ed"@
    } else if i == 1 {
        "#00b8d9"@
    } else if i == 2 {
        "#f2a900"@
    } else if i == 3 {
        "#9b51e0"@
    } else if i == 4 {
        "#27ae60"@
    } else if i == 5 {
        "#e0492a"@
    } else if i == 6 {
        "#e0489a"@
    } else {
        "#8c8c8c"@
    }
}

/// The position of a stored type among the eight (exact text; anything
/// else counts as `other`).
pub open spec fn type_index(t: Seq<char>) -> int {
    if t == "server"@ {
        0
    } else if t == "switch"@ {
        1
    } else if t == "router"@ {
        2
    } else if t == "storage"@ {
        3
    } else if t == "nas"@ {
        4
    } else if t == "security"@ {
        5
    } else if t == "loadbalancer"@ {
        6
    } else {
        7
    }
}

/// The stored type of a device's model; `other` without a model.
pub open spec fn device_type_of(db: Database, d: Device) -> Seq<char> {
    match d.device_model_id {
        Some(id) => match model_at(db, id) {
            Some(m) => m.device_type@,
            None => "other"@,
        },
        None => "other"@,
    }
}

/// The number of devices in use among `ds` whose stored type is the `t`-th
/// of the eight.
pub open spec fn count_type(db: Database, ds: Seq<Device>, t: int) -> int
    decreases ds.len(),
{
    if ds.len() == 0 {
        0
    } else {
        count_type(db, ds.drop_last(), t) + if is_active(ds.last()) && type_index(device_type_of(db, ds.last())) == t {
            1int
        } else {
            0int
        }
    }
}

/// The number of devices in use among `ds` with status `st`.
pub open spec fn count_status(ds: Seq<Device>, st: Seq<char>) -> int
    decreases ds.len(),
{
    if ds.len() == 0 {
        0
    } else {
        count_status(ds.drop_last(), st) + if is_active(ds.last()) && ds.last().status@ == st {
            1int
        } else {
            0int
        }
    }
}

/// The number of devices in use among `ds` that are neither online nor
/// offline.
pub open spec fn count_other_status(ds: Seq<Device>) -> int
    decreases ds.len(),
{
    if ds.len() == 0 {
        0
    } else {
        count_other_status(ds.drop_last()) + if is_active(ds.last()) && ds.last().status@ != "online"@
            && ds.last().status@ != "offline"@ {
            1int
        } else {
            0int
        }
    }
}

/// The number of devices in use among `ds`.
pub open spec fn count_in_use(ds: Seq<Device>) -> int
    decreases ds.len(),
{
    if ds.len() == 0 {
        0
    } else {
        count_in_use(ds.drop_last()) + if is_active(ds.last()) {
            1int
        } else {
            0int
        }
    }
}

/// The slots that the racks of room `room` hold (negative heights count as
/// none).
pub open spec fn room_total(rs: Seq<Rack>, room: i32) -> int
    decreases rs.len(),
{
    if rs.len() == 0 {
        0
    } else {
        room_total(rs.drop_last(), room) + if rs.last().room_id == Some(room) && rs.last().height_u > 0 {
            rs.last().height_u as int
        } else {
            0
        }
    }
}

/// The heights of the devices in use placed in the racks of room `room`
/// (negative heights count as none).
pub open spec fn room_used(db: Database, ds: Seq<Device>, room: i32) -> int
    decreases ds.len(),
{
    if ds.len() == 0 {
        0
    } else {
        let d = ds.last();
        room_used(db, ds.drop_last(), room) + if is_active(d) && d.rack_id is Some && rack_in_room(
            db,
            d.rack_id->0,
            room,
        ) && d.height_u > 0 {
            d.height_u as int
        } else {
            0
        }
    }
}

/// The use of a room in percent, held to `0..=100` (0 without slots).
pub open spec fn room_pct(used: int, total: int) -> int {
    if total > 0 {
        let p = (used * 100) / total;
        if p < 0 {
            0
        } else if p > 100 {
            100
        } else {
            p
        }
    } else {
        0
    }
}

/// The figures stay within the `i32` range: each room's slots and use (in
/// percent units) and the chart height.
pub open spec fn report_fits(db: Database) -> bool {
    &&& db.rooms@.len() * 34 + 28 <= i32::MAX
    &&& forall|k: int|
        0 <= k < db.rooms@.len() ==> room_total(db.racks@, #[trigger] db.rooms@[k].id) <= i32::MAX && room_used(
            db,
            db.devices@,
            db.rooms@[k].id,
        ) * 100 <= i32::MAX
}

/// One row of the report's device table.
pub struct ReportDevice {
    pub name: String,
    pub model: String,
    pub room: String,
    pub rack: String,
    pub ip: String,
    pub status_label: String,
    pub status_class: String,
    pub department: String,
    pub owner: String,
}

/// One bar of the room chart.
pub struct RoomUtil {
    pub name: String,
    pub used_u: i32,
    pub total_u: i32,
    pub pct: i32,
    pub bar_px: i32,
    pub y: i32,
    pub text_y: i32,
}

/// One part of the stacked bar of device types.
pub struct TypeSlice {
    pub label: String,
    pub color: String,
    pub count: usize,
    pub pct: i32,
    pub x: i32,
    pub width: i32,
}

/// The figures of the report.
pub struct ReportData {
    pub headers: Vec<String>,
    pub devices: Vec<ReportDevice>,
    pub total_devices: usize,
    pub online_count: usize,
    pub offline_count: usize,
    pub unconfigured_count: usize,
    pub room_utils: Vec<RoomUtil>,
    pub type_slices: Vec<TypeSlice>,
    pub type_total: usize,
    pub has_rooms: bool,
    pub has_types: bool,
    pub bar_chart_height: i32,
}

/// The status label and style class of the report: `开机`/`online`,
/// `离线`/`offline`, anything else `未上架`/`unconfigured`.
pub open spec fn report_status(status: Seq<char>) -> (Seq<char>, Seq<char>) {
    if status == "online"@ {
        ("开机"@, "online"@)
    } else if status == "offline"@ {
        ("离线"@, "offline"@)
    } else {
        ("未上架"@, "unconfigured"@)
    }
}

/// True when `row` is the report row of device `d`.
pub open spec fn is_report_row(row: ReportDevice, db: Database, d: Device) -> bool {
    &&& row.name@ == d.name@
    &&& row.model@ == model_name_of(db, d.device_model_id)
    &&& row.room@ == room_name_of(db, d.rack_id)
    &&& row.rack@ == rack_name_of(db, d.rack_id)
    &&& row.ip@ == d.ip_addresses@
    &&& row.status_label@ == report_status(d.status@).0
    &&& row.status_class@ == report_status(d.status@).1
    &&& row.department@ == d.department@
    &&& row.owner@ == d.owner@
}

fn report_row(db: &Database, d: &Device) -> (r: ReportDevice)
    requires
        db.wf(),
    ensures
        is_report_row(r, *db, *d),
{
    let (label, class) = if str_equal(d.status.as_str(), "online") {
        (owned("开机"), owned("online"))
    } else if str_equal(d.status.as_str(), "offline") {
        (owned("离线"), owned("offline"))
    } else {
        (owned("未上架"), owned("unconfigured"))
    };
    ReportDevice {
        name: d.name.clone(),
        model: model_name_for(db, d.device_model_id),
        room: room_name_for(db, d.rack_id),
        rack: rack_name_for(db, d.rack_id),
        ip: d.ip_addresses.clone(),
        status_label: label,
        status_class: class,
        department: d.department.clone(),
        owner: d.owner.clone(),
    }
}

/// The type counts of the devices in use, by position among the eight.
pub open spec fn type_counts(db: Database) -> Seq<int> {
    Seq::new(8, |t: int| count_type(db, db.devices@, t))
}

/// The left edge of the part for type `n`: the widths of the parts before.
pub open spec fn x_upto(counts: Seq<int>, total: int, n: int) -> int
    decreases n,
{
    if n <= 0 || total <= 0 {
        0
    } else {
        x_upto(counts, total, n - 1) + if counts[n - 1] > 0 {
            (STACK_MAX_PX * counts[n - 1]) / total
        } else {
            0
        }
    }
}

/// The parts of the stacked bar for the first `n` types: (type position,
/// count, percent, left edge, width), types without devices left out.
pub open spec fn slices_upto(counts: Seq<int>, total: int, n: int) -> Seq<(int, int, int, int, int)>
    decreases n,
{
    if n <= 0 {
        Seq::empty()
    } else if counts[n - 1] > 0 {
        slices_upto(counts, total, n - 1).push(
            (
                n - 1,
                counts[n - 1],
                if total > 0 {
                    counts[n - 1] * 100 / total
                } else {
                    0
                },
                x_upto(counts, total, n - 1),
                if total > 0 {
                    (STACK_MAX_PX * counts[n - 1]) / total
                } else {
                    0
                },
            ),
        )
    } else {
        slices_upto(counts, total, n - 1)
    }
}

/// The view of the stacked bar's parts.
pub open spec fn slices_view(v: Seq<TypeSlice>) -> Seq<(Seq<char>, Seq<char>, int, int, int, int)> {
    v.map_values(|t: TypeSlice| (t.label@, t.color@, t.count as int, t.pct as int, t.x as int, t.width as int))
}

/// The view a spec part has once labelled and coloured.
pub open spec fn labelled(v: Seq<(int, int, int, int, int)>) -> Seq<(Seq<char>, Seq<char>, int, int, int, int)> {
    v.map_values(|t: (int, int, int, int, int)| (type_label_at(t.0), type_color_at(t.0), t.1, t.2, t.3, t.4))
}

/// The bar of a room: used slots, slots, percent, bar width, and the two
/// heights of the `idx`-th bar.
pub open spec fn is_room_util(u: RoomUtil, db: Database, room: Room, idx: int) -> bool {
    let used = room_used(db, db.devices@, room.id);
    let total = room_total(db.racks@, room.id);
    &&& u.name@ == room.name@
    &&& u.used_u == used
    &&& u.total_u == total
    &&& u.pct == room_pct(used, total)
    &&& u.bar_px == BAR_MAX_PX * room_pct(used, total) / 100
    &&& u.y == idx * 34 + 12
    &&& u.text_y == idx * 34 + 24
}

fn type_position(t: &str) -> (r: usize)
    ensures
        r == type_index(t@),
{
    if str_equal(t, "server") {
        0
    } else if str_equal(t, "switch") {
        1
    } else if str_equal(t, "router") {
        2
    } else if str_equal(t, "storage") {
        3
    } else if str_equal(t, "nas") {
        4
    } else if str_equal(t, "security") {
        5
    } else if str_equal(t, "loadbalancer") {
        6
    } else {
        7
    }
}

fn label_at(i: usize) -> (r: (String, String))
    ensures
        r.0@ == type_label_at(i as int),
        r.1@ == type_color_at(i as int),
{
    if i == 0 {
        (owned("服务器"), owned("#2f80ed"))
    } else if i == 1 {
        (owned("交换机"), owned("#00b8d9"))
    } else if i == 2 {
        (owned("路由器"), owned("#f2a900"))
    } else if i == 3 {
        (owned("存储阵列"), owned("#9b51e0"))
    } else if i == 4 {
        (owned("NAS 存储"), owned("#27ae60"))
    } else if i == 5 {
        (owned("网安设备"), owned("#e0492a"))
    } else if i == 6 {
        (owned("负载均衡"), owned("#e0489a"))
    } else {
        (owned("其他"), owned("#8c8c8c"))
    }
}

proof fn lemma_type_index_other()
    ensures
        type_index("other"@) == 7,
{
    reveal_strlit("other");
    reveal_strlit("server");
    reveal_strlit("switch");
    reveal_strlit("router");
    reveal_strlit("storage");
    reveal_strlit("nas");
    reveal_strlit("security");
    reveal_strlit("loadbalancer");
    assert("other"@ != "server"@) by {
        assert("other"@[0] != "server"@[0]);
    }
    assert("other"@ != "switch"@) by {
        assert("other"@[0] != "switch"@[0]);
    }
    assert("other"@ != "router"@) by {
        assert("other"@[0] != "router"@[0]);
    }
    assert("other"@ != "storage"@) by {
        assert("other"@[0] != "storage"@[0]);
    }
    assert("other"@ != "security"@) by {
        assert("other"@[0] != "security"@[0]);
    }
}

proof fn lemma_count_type_le(db: Database, ds: Seq<Device>, t: int)
    ensures
        0 <= count_type(db, ds, t) <= count_in_use(ds),
    decreases ds.len(),
{
    if ds.len() > 0 {
        lemma_count_type_le(db, ds.drop_last(), t);
    }
}

proof fn lemma_count_in_use_le(ds: Seq<Device>)
    ensures
        0 <= count_in_use(ds) <= ds.len(),
    decreases ds.len(),
{
    if ds.len() > 0 {
        lemma_count_in_use_le(ds.drop_last());
    }
}

proof fn lemma_types_sum(db: Database, ds: Seq<Device>)
    ensures
        count_type(db, ds, 0) + count_type(db, ds, 1) + count_type(db, ds, 2) + count_type(db, ds, 3) + count_type(
            db,
            ds,
            4,
        ) + count_type(db, ds, 5) + count_type(db, ds, 6) + count_type(db, ds, 7) == count_in_use(ds),
    decreases ds.len(),
{
    if ds.len() > 0 {
        lemma_types_sum(db, ds.drop_last());
    }
}

/// The counts the report shows: devices in use by status, and by type.
fn tally_devices(db: &Database) -> (r: (usize, usize, usize, Vec<usize>))
    requires
        db.wf(),
    ensures
        r.0 == count_status(db.devices@, "online"@),
        r.1 == count_status(db.devices@, "offline"@),
        r.2 == count_other_status(db.devices@),
        r.3@.len() == 8,
        forall|t: int| 0 <= t < 8 ==> #[trigger] r.3@[t] == count_type(*db, db.devices@, t),
{
    proof {
        lemma_type_index_other();
        reveal_strlit("online");
        reveal_strlit("offline");
        assert("online"@[1] != "offline"@[1]);
    }
    let mut online: usize = 0;
    let mut offline: usize = 0;
    let mut other: usize = 0;
    let mut counts: Vec<usize> = Vec::new();
    let mut z: usize = 0;
    while z < 8
        invariant
            z <= 8,
            counts@.len() == z,
            forall|t: int| 0 <= t < z ==> #[trigger] counts@[t] == 0,
        decreases 8 - z,
    {
        counts.push(0);
        z = z + 1;
    }
    let mut i: usize = 0;
    while i < db.devices.len()
        invariant
            db.wf(),
            "online"@ != "offline"@,
            type_index("other"@) == 7,
            i <= db.devices@.len(),
            online == count_status(db.devices@.take(i as int), "online"@),
            offline == count_status(db.devices@.take(i as int), "offline"@),
            other == count_other_status(db.devices@.take(i as int)),
            online + offline + other <= i,
            counts@.len() == 8,
            forall|t: int| 0 <= t < 8 ==> #[trigger] counts@[t] == count_type(*db, db.devices@.take(i as int), t),
            forall|t: int| 0 <= t < 8 ==> #[trigger] counts@[t] <= i,
        decreases db.devices.len() - i,
    {
        let d = &db.devices[i];
        let ghost pre = db.devices@.take(i as int);
        assert(db.devices@.take(i + 1).drop_last() =~= pre);
        assert(db.devices@.take(i + 1).last() == db.devices@[i as int]);
        if d.deleted_at.is_none() {
            if str_equal(d.status.as_str(), "online") {
                online = online + 1;
            } else if str_equal(d.status.as_str(), "offline") {
                offline = offline + 1;
            } else {
                other = other + 1;
            }
            let ty: usize = match d.device_model_id {
                Some(id) => match get_device_model(db, id) {
                    Some(m) => type_position(m.device_type.as_str()),
                    None => 7,
                },
                None => 7,
            };
            assert(ty == type_index(device_type_of(*db, *d)));
            let c = counts[ty];
            counts.set(ty, c + 1);
        }
        i = i + 1;
    }
    assert(db.devices@.take(db.devices@.len() as int) =~= db.devices@);
    (online, offline, other, counts)
}

proof fn lemma_insert_room_member(s: Seq<Room>, r: Room, i: int)
    requires
        0 <= i < crate::db::rooms::insert_room_ordered(s, r).len(),
    ensures
        crate::db::rooms::insert_room_ordered(s, r)[i] == r || exists|k: int|
            0 <= k < s.len() && #[trigger] s[k] == crate::db::rooms::insert_room_ordered(s, r)[i],
    decreases s.len(),
{
    if s.len() > 0 && !(r.sort_order < s[0].sort_order) && i > 0 {
        lemma_insert_room_member(s.drop_first(), r, i - 1);
        if crate::db::rooms::insert_room_ordered(s.drop_first(), r)[i - 1] != r {
            let k = choose|k: int|
                0 <= k < s.drop_first().len() && #[trigger] s.drop_first()[k] == crate::db::rooms::insert_room_ordered(
                    s.drop_first(),
                    r,
                )[i - 1];
            assert(s[k + 1] == s.drop_first()[k]);
        }
    } else if s.len() > 0 && r.sort_order < s[0].sort_order && i > 0 {
        assert(s[i - 1] == crate::db::rooms::insert_room_ordered(s, r)[i]);
    } else if s.len() > 0 && i == 0 && !(r.sort_order < s[0].sort_order) {
        assert(s[0] == crate::db::rooms::insert_room_ordered(s, r)[0]);
    }
}

proof fn lemma_insert_room_len(s: Seq<Room>, r: Room)
    ensures
        crate::db::rooms::insert_room_ordered(s, r).len() == s.len() + 1,
    decreases s.len(),
{
    if s.len() > 0 && !(r.sort_order < s[0].sort_order) {
        lemma_insert_room_len(s.drop_first(), r);
    }
}

/// Every listed room is a room of the table, and there are as many.
proof fn lemma_rooms_ordered_members(s: Seq<Room>)
    ensures
        rooms_ordered(s).len() == s.len(),
        forall|i: int|
            #![trigger rooms_ordered(s)[i]]
            0 <= i < s.len() ==> exists|k: int| 0 <= k < s.len() && #[trigger] s[k] == rooms_ordered(s)[i],
    decreases s.len(),
{
    if s.len() > 0 {
        let prev = rooms_ordered(s.drop_last());
        lemma_rooms_ordered_members(s.drop_last());
        lemma_insert_room_len(prev, s.last());
        assert forall|i: int|
            #![trigger rooms_ordered(s)[i]]
            0 <= i < s.len() implies exists|k: int| 0 <= k < s.len() && #[trigger] s[k] == rooms_ordered(s)[i] by {
            lemma_insert_room_member(prev, s.last(), i);
            if rooms_ordered(s)[i] == s.last() {
                assert(s[s.len() - 1] == rooms_ordered(s)[i]);
            } else {
                let k = choose|k: int| 0 <= k < prev.len() && #[trigger] prev[k] == rooms_ordered(s)[i];
                let k2 = choose|k2: int| 0 <= k2 < s.drop_last().len() && #[trigger] s.drop_last()[k2] == prev[k];
                assert(s[k2] == s.drop_last()[k2]);
            }
        }
    }
}

fn total_of_room(db: &Database, room: i32) -> (r: i64)
    requires
        db.wf(),
    ensures
        r == room_total(db.racks@, room),
        r >= 0,
{
    proof {
        crate::db::devices::lemma_ids_len_bound(rack_ids(db.racks@), db.next_rack_id);
    }
    let mut total: i64 = 0;
    let mut i: usize = 0;
    while i < db.racks.len()
        invariant
            i <= db.racks@.len(),
            db.racks@.len() <= i32::MAX,
            0 <= total <= i * 2147483648,
            total == room_total(db.racks@.take(i as int), room),
        decreases db.racks.len() - i,
    {
        assert(db.racks@.take(i + 1).drop_last() =~= db.racks@.take(i as int));
        assert(db.racks@.take(i + 1).last() == db.racks@[i as int]);
        if db.racks[i].room_id == Some(room) && db.racks[i].height_u > 0 {
            total = total + db.racks[i].height_u as i64;
        }
        i = i + 1;
    }
    assert(db.racks@.take(db.racks@.len() as int) =~= db.racks@);
    total
}

fn used_of_room(db: &Database, room: i32) -> (r: i64)
    requires
        db.wf(),
    ensures
        r == room_used(*db, db.devices@, room),
        r >= 0,
{
    proof {
        crate::db::devices::lemma_ids_len_bound(device_ids(db.devices@), db.next_device_id);
    }
    let mut total: i64 = 0;
    let mut i: usize = 0;
    while i < db.devices.len()
        invariant
            db.wf(),
            i <= db.devices@.len(),
            db.devices@.len() <= i32::MAX,
            0 <= total <= i * 2147483648,
            total == room_used(*db, db.devices@.take(i as int), room),
        decreases db.devices.len() - i,
    {
        let d = &db.devices[i];
        assert(db.devices@.take(i + 1).drop_last() =~= db.devices@.take(i as int));
        assert(db.devices@.take(i + 1).last() == db.devices@[i as int]);
        if d.deleted_at.is_none() && d.height_u > 0 {
            if let Some(rid) = d.rack_id {
                proof {
                    crate::db::lemma_id_pos_range(rack_ids(db.racks@), rid);
                }
                let inside = match crate::db::rack_position(&db.racks, rid) {
                    Some(p) => db.racks[p].room_id == Some(room),
                    None => false,
                };
                if inside {
                    total = total + d.height_u as i64;
                }
            }
        }
        i = i + 1;
    }
    assert(db.devices@.take(db.devices@.len() as int) =~= db.devices@);
    total
}

/// Whether the report's figures fit (see [`report_fits`]).
pub fn fits_report(db: &Database) -> (r: bool)
    requires
        db.wf(),
    ensures
        r == report_fits(*db),
{
    if db.rooms.len() > 63161282 {
        return false;
    }
    let mut k: usize = 0;
    while k < db.rooms.len()
        invariant
            db.wf(),
            k <= db.rooms@.len(),
            db.rooms@.len() * 34 + 28 <= i32::MAX,
            forall|j: int|
                0 <= j < k ==> room_total(db.racks@, #[trigger] db.rooms@[j].id) <= i32::MAX && room_used(
                    *db,
                    db.devices@,
                    db.rooms@[j].id,
                ) * 100 <= i32::MAX,
        decreases db.rooms.len() - k,
    {
        let id = db.rooms[k].id;
        let total = total_of_room(db, id);
        let used = used_of_room(db, id);
        if total > 2147483647 || used > 21474836 {
            assert(!(room_total(db.racks@, db.rooms@[k as int].id) <= i32::MAX && room_used(
                *db,
                db.devices@,
                db.rooms@[k as int].id,
            ) * 100 <= i32::MAX));
            return false;
        }
        k = k + 1;
    }
    true
}

/// The figures of the report when they fit, else none (see
/// [`report_data`] and [`report_fits`]).
pub fn build_report(db: &Database) -> (r: Option<ReportData>)
    requires
        db.wf(),
    ensures
        r is Some <==> report_fits(*db),
        r matches Some(x) ==> {
            &&& x.devices@.len() == active_by_name(*db).len()
            &&& forall|i: int| 0 <= i < x.devices@.len() ==> is_report_row(#[trigger] x.devices@[i], *db, active_by_name(*db)[i])
            &&& x.total_devices == active_by_name(*db).len()
            &&& x.online_count == count_status(db.devices@, "online"@)
            &&& x.offline_count == count_status(db.devices@, "offline"@)
            &&& x.unconfigured_count == count_other_status(db.devices@)
            &&& x.room_utils@.len() == rooms_ordered(db.rooms@).len()
            &&& forall|i: int| 0 <= i < x.room_utils@.len() ==> is_room_util(#[trigger] x.room_utils@[i], *db, rooms_ordered(db.rooms@)[i], i)
            &&& x.type_total == count_in_use(db.devices@)
            &&& slices_view(x.type_slices@) == labelled(slices_upto(type_counts(*db), x.type_total as int, 8))
        },
{
    if fits_report(db) {
        Some(report_data(db))
    } else {
        None
    }
}

/// The bars of the room chart, one per room in listing order.
fn room_bars(db: &Database) -> (r: Vec<RoomUtil>)
    requires
        db.wf(),
        report_fits(*db),
    ensures
        r@.len() == rooms_ordered(db.rooms@).len(),
        r@.len() == db.rooms@.len(),
        forall|i: int| 0 <= i < r@.len() ==> is_room_util(#[trigger] r@[i], *db, rooms_ordered(db.rooms@)[i], i),
{
    let rooms = list_rooms(db);
    proof {
        lemma_rooms_ordered_members(db.rooms@);
    }
    let mut out: Vec<RoomUtil> = Vec::new();
    let mut i: usize = 0;
    while i < rooms.len()
        invariant
            db.wf(),
            report_fits(*db),
            rooms@ == rooms_ordered(db.rooms@),
            rooms@.len() == db.rooms@.len(),
            forall|j: int|
                #![trigger rooms@[j]]
                0 <= j < db.rooms@.len() ==> exists|k: int| 0 <= k < db.rooms@.len() && #[trigger] db.rooms@[k] == rooms@[j],
            i <= rooms@.len(),
            out@.len() == i,
            forall|j: int| 0 <= j < i ==> is_room_util(#[trigger] out@[j], *db, rooms@[j], j),
        decreases rooms.len() - i,
    {
        let room = &rooms[i];
        let ghost k = choose|k: int| 0 <= k < db.rooms@.len() && #[trigger] db.rooms@[k] == rooms@[i as int];
        assert(room_total(db.racks@, db.rooms@[k].id) <= i32::MAX);
        let total = total_of_room(db, room.id);
        let used = used_of_room(db, room.id);
        let pct: i64 = if total > 0 {
            let p = (used * 100) / total;
            if p < 0 {
                0
            } else if p > 100 {
                100
            } else {
                p
            }
        } else {
            0
        };
        let bar = 320 * pct / 100;
        let y = (i as i64) * 34 + 12;
        out.push(RoomUtil {
            name: room.name.clone(),
            used_u: used as i32,
            total_u: total as i32,
            pct: pct as i32,
            bar_px: bar as i32,
            y: y as i32,
            text_y: (y + 12) as i32,
        });
        i = i + 1;
    }
    out
}

/// The parts of the stacked bar of device types.
fn type_parts(counts: &Vec<usize>, total: usize) -> (r: Vec<TypeSlice>)
    requires
        counts@.len() == 8,
        counts@[0] + counts@[1] + counts@[2] + counts@[3] + counts@[4] + counts@[5] + counts@[6] + counts@[7] == total,
        total <= i32::MAX,
    ensures
        slices_view(r@) == labelled(slices_upto(counts@.map_values(|c: usize| c as int), total as int, 8)),
{
    let ghost cs = counts@.map_values(|c: usize| c as int);
    let mut out: Vec<TypeSlice> = Vec::new();
    let mut x: i64 = 0;
    let mut i: usize = 0;
    assert(slices_view(out@) =~= labelled(slices_upto(cs, total as int, 0)));
    while i < 8
        invariant
            i <= 8,
            counts@.len() == 8,
            total <= i32::MAX,
            cs == counts@.map_values(|c: usize| c as int),
            forall|j: int| 0 <= j < 8 ==> #[trigger] counts@[j] <= total,
            x == x_upto(cs, total as int, i as int),
            0 <= x <= 480 * i,
            slices_view(out@) == labelled(slices_upto(cs, total as int, i as int)),
        decreases 8 - i,
    {
        let c = counts[i];
        assert(cs[i as int] == c as int);
        let ghost before = out@;
        if c > 0 {
            let width: u64 = (480u64 * (c as u64)) / (total as u64);
            let pct: u64 = ((c as u64) * 100) / (total as u64);
            assert(width <= 480) by (nonlinear_arith)
                requires
                    c <= total,
                    total > 0,
                    width == (480 * c) / (total as int),
            ;
            assert(pct <= 100) by (nonlinear_arith)
                requires
                    c <= total,
                    total > 0,
                    pct == (c * 100) / (total as int),
            ;
            let (label, color) = label_at(i);
            let part = TypeSlice { label, color, count: c, pct: pct as i32, x: x as i32, width: width as i32 };
            out.push(part);
            proof {
                let e = (i as int, c as int, (c as int * 100) / (total as int), x as int, (STACK_MAX_PX * c as int) / (total as int));
                assert(slices_upto(cs, total as int, i + 1) == slices_upto(cs, total as int, i as int).push(e));
                assert(labelled(slices_upto(cs, total as int, i as int).push(e)) =~= labelled(slices_upto(cs, total as int, i as int)).push(
                    (type_label_at(i as int), type_color_at(i as int), e.1, e.2, e.3, e.4),
                ));
                assert(slices_view(out@) =~= slices_view(before).push((part.label@, part.color@, part.count as int, part.pct as int, part.x as int, part.width as int)));
            }
            x = x + width as i64;
        } else {
            assert(out@ == before);
        }
        i = i + 1;
    }
    out
}

/// The columns of the report's device table.
pub open spec fn report_header() -> Seq<Seq<char>> {
    seq!["设备名称"@, "型号"@, "机房"@, "机柜"@, "IP地址"@, "状态"@, "部门"@, "责任人"@]
}

fn report_headers() -> (r: Vec<String>)
    ensures
        r@.map_values(|s: String| s@) == report_header(),
{
    let mut v: Vec<String> = Vec::new();
    v.push(owned("设备名称"));
    v.push(owned("型号"));
    v.push(owned("机房"));
    v.push(owned("机柜"));
    v.push(owned("IP地址"));
    v.push(owned("状态"));
    v.push(owned("部门"));
    v.push(owned("责任人"));
    assert(v@.map_values(|s: String| s@) =~= report_header());
    v
}

/// The figures of the report: the devices in use by name with their model,
/// room, rack and status; the counts by status; the slot use of each room
/// in listing order (percent held to `0..=100`, bars 34 pixels apart); the
/// parts of the type bar (types without devices left out, widths and
/// percents rounded down).
pub fn report_data(db: &Database) -> (r: ReportData)
    requires
        db.wf(),
        report_fits(*db),
    ensures
        r.headers@.map_values(|s: String| s@) == report_header(),
        r.devices@.len() == active_by_name(*db).len(),
        forall|i: int| 0 <= i < r.devices@.len() ==> is_report_row(#[trigger] r.devices@[i], *db, active_by_name(*db)[i]),
        r.total_devices == active_by_name(*db).len(),
        r.online_count == count_status(db.devices@, "online"@),
        r.offline_count == count_status(db.devices@, "offline"@),
        r.unconfigured_count == count_other_status(db.devices@),
        r.room_utils@.len() == rooms_ordered(db.rooms@).len(),
        forall|i: int| 0 <= i < r.room_utils@.len() ==> is_room_util(#[trigger] r.room_utils@[i], *db, rooms_ordered(db.rooms@)[i], i),
        r.type_total == count_in_use(db.devices@),
        slices_view(r.type_slices@) == labelled(slices_upto(type_counts(*db), r.type_total as int, 8)),
        r.has_rooms == (r.room_utils@.len() > 0),
        r.has_types == (r.type_total > 0),
        r.bar_chart_height == r.room_utils@.len() * 34 + 16,
{
    let devices = active_devices(db);
    let mut rows: Vec<ReportDevice> = Vec::new();
    let mut i: usize = 0;
    while i < devices.len()
        invariant
            db.wf(),
            devices@ == active_by_name(*db),
            i <= devices@.len(),
            rows@.len() == i,
            forall|k: int| 0 <= k < i ==> is_report_row(#[trigger] rows@[k], *db, devices@[k]),
        decreases devices.len() - i,
    {
        rows.push(report_row(db, &devices[i]));
        i = i + 1;
    }
    let (online, offline, other, counts) = tally_devices(db);
    proof {
        lemma_types_sum(*db, db.devices@);
        lemma_count_in_use_le(db.devices@);
        crate::db::devices::lemma_ids_len_bound(device_ids(db.devices@), db.next_device_id);
        assert forall|t: int| 0 <= t < 8 implies #[trigger] counts@[t] <= count_in_use(db.devices@) by {
            lemma_count_type_le(*db, db.devices@, t);
        }
        assert(counts@[0] + counts@[1] + counts@[2] + counts@[3] + counts@[4] + counts@[5] + counts@[6] + counts@[7]
            == count_in_use(db.devices@));
    }
    let total: usize = counts[0] + counts[1] + counts[2] + counts[3] + counts[4] + counts[5] + counts[6] + counts[7];
    let parts = type_parts(&counts, total);
    assert(counts@.map_values(|c: usize| c as int) =~= type_counts(*db));
    let bars = room_bars(db);
    let height = (bars.len() as i64 * 34 + 16) as i32;
    let has_rooms = bars.len() > 0;
    ReportData {
        headers: report_headers(),
        devices: rows,
        total_devices: devices.len(),
        online_count: online,
        offline_count: offline,
        unconfigured_count: other,
        room_utils: bars,
        type_slices: parts,
        type_total: total,
        has_rooms,
        has_types: total > 0,
        bar_chart_height: height,
    }
}

} // verus!
