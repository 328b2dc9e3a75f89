//! Properties of the inventory that span operations or calls: the recycle
//! bin, batch deletion, queries, placement, ordering and find-or-create.
use vstd::prelude::*;
use vstd::seq_lib::to_multiset_insert;
use crate::db::{Database, rack_ids, Instant, instant_nanos, rfc3339_instant, id_pos, device_ids, is_active,
    active_numbers_unique, lemma_id_pos_range};
use crate::db::devices::{soft_delete_hits, soft_delete_seq, batch_seq, batch_deleted, batch_not_found,
    restore_failure, restore_outcome, restore_window_nanos, same_but_devices, device_at,
    first_active_serial, first_active_asset, query_result, query_filter_ok, list_result, list_filter_ok, sort_field_of, sort_desc, page_of,
    page_offset, page_limit, filtered, filter_keeps,
    DeviceFilter, sorted_by, insert_sorted, goes_before, key_before, opt_text_before, opt_int_before,
    SortField, create_failure, is_created_device, input_failure, overlap_error, first_overlap, overlaps,
    exclusion, spatial_touched, update_failure, is_updated_device};
use crate::models::DeviceUpdate;
use crate::db::racks::{first_rack_named, rack_found_or_created};
use crate::db::rooms::{first_room_named, room_found_or_created};
use crate::db::device_models::{first_model_named, model_found_or_created};
use crate::error::AppError;
use crate::models::{Device, DeviceCreate, DeviceQuery, Rack, Room, DeviceModel, normalized_type,
    device_type_of_key};
use crate::text::{int_text, text_before, lemma_text_before_irreflexive, lemma_text_before_transitive, is_ascii_or_han_text, is_han, ascii_lower,
    ascii_fold, is_white_space, trim_start, trim_end, trimmed};
use crate::models::{type_key, lowered, drop_separators};
use crate::excel::type_label;
use crate::report::room_used;
use crate::export::{slot_writes, label_writes};
use crate::import::{ImportRow, Tally, row_step, row_ok, row_trace, row_skipped, row_fails, row_fail_trace, rejects,
    skip_warning, existing_device, overwrites};
use crate::db::devices::first_named_in_rack;
use crate::models::{ImportOptions, DeviceModelCreate};
use crate::db::devices::rack_in_room;

verus! {

// ---------------------------------------------------------------------------
// Recycle bin
// ---------------------------------------------------------------------------

proof fn lemma_serial_found(ds: Seq<Device>, sn: Seq<char>, exclude: i32)
    requires
        first_active_serial(ds, sn, exclude) is Some,
    ensures
        exists|k: int|
            0 <= k < ds.len() && is_active(#[trigger] ds[k]) && sn.len() > 0 && ds[k].serial_no@ == sn && ds[k].id
                != exclude,
    decreases ds.len(),
{
    if !(is_active(ds[0]) && sn.len() > 0 && ds[0].serial_no@ == sn && ds[0].id != exclude) {
        lemma_serial_found(ds.drop_first(), sn, exclude);
        let k = choose|k: int|
            0 <= k < ds.drop_first().len() && is_active(#[trigger] ds.drop_first()[k]) && sn.len() > 0
                && ds.drop_first()[k].serial_no@ == sn && ds.drop_first()[k].id != exclude;
        assert(ds[k + 1] == ds.drop_first()[k]);
    }
}

proof fn lemma_asset_found(ds: Seq<Device>, an: Seq<char>, exclude: i32)
    requires
        first_active_asset(ds, an, exclude) is Some,
    ensures
        exists|k: int|
            0 <= k < ds.len() && is_active(#[trigger] ds[k]) && an.len() > 0 && ds[k].asset_no@ == an && ds[k].id
                != exclude,
    decreases ds.len(),
{
    if !(is_active(ds[0]) && an.len() > 0 && ds[0].asset_no@ == an && ds[0].id != exclude) {
        lemma_asset_found(ds.drop_first(), an, exclude);
        let k = choose|k: int|
            0 <= k < ds.drop_first().len() && is_active(#[trigger] ds.drop_first()[k]) && an.len() > 0
                && ds.drop_first()[k].asset_no@ == an && ds.drop_first()[k].id != exclude;
        assert(ds[k + 1] == ds.drop_first()[k]);
    }
}

/// Restoring a device that was just moved to the recycle bin, within the
/// restore window of the deletion stamp, succeeds and gives the device back
/// as it was, with only `updated_at` refreshed: no other device can have
/// taken its serial or asset number meanwhile.
pub proof fn law_restore_undoes_soft_delete(
    db0: Database,
    db1: Database,
    db2: Database,
    id: i32,
    deleted: String,
    now: Instant,
    now_text: String,
    r: Result<Device, AppError>,
)
    requires
        db0.wf(),
        soft_delete_hits(db0.devices@, id),
        db1.devices@ == soft_delete_seq(db0.devices@, id, deleted),
        same_but_devices(db0, db1),
        db1.next_device_id == db0.next_device_id,
        rfc3339_instant(deleted@) is None || instant_nanos(now) - instant_nanos(rfc3339_instant(deleted@)->0)
            <= restore_window_nanos(),
        restore_outcome(db1, db2, id, r, now, now_text),
    ensures
        ({
            let p = id_pos(device_ids(db0.devices@), id);
            &&& r == Ok::<Device, AppError>(Device { updated_at: Some(now_text), ..db0.devices@[p] })
            &&& db2.devices@ == db0.devices@.update(p, r->Ok_0)
        }),
{
    let ds = db0.devices@;
    let ns = db1.devices@;
    let p = id_pos(device_ids(ds), id);
    lemma_id_pos_range(device_ids(ds), id);
    let orig = ds[p];
    assert(device_ids(ns) =~= device_ids(ds));
    assert(device_at(db1, id) == Some(ns[p]));
    let d = ns[p];
    assert(device_ids(ds)[p] == orig.id);
    if first_active_serial(ns, d.serial_no@, d.id) is Some {
        lemma_serial_found(ns, d.serial_no@, d.id);
        let k = choose|k: int|
            0 <= k < ns.len() && is_active(#[trigger] ns[k]) && d.serial_no@.len() > 0 && ns[k].serial_no@
                == d.serial_no@ && ns[k].id != d.id;
        assert(k != p);
        assert(ns[k] == ds[k]);
        assert(active_numbers_unique(ds));
    }
    if first_active_asset(ns, d.asset_no@, d.id) is Some {
        lemma_asset_found(ns, d.asset_no@, d.id);
        let k = choose|k: int|
            0 <= k < ns.len() && is_active(#[trigger] ns[k]) && d.asset_no@.len() > 0 && ns[k].asset_no@
                == d.asset_no@ && ns[k].id != d.id;
        assert(k != p);
        assert(ns[k] == ds[k]);
        assert(active_numbers_unique(ds));
    }
    assert(restore_failure(db1, id, now) is None);
    assert(Device { deleted_at: None, updated_at: Some(now_text), ..d } == Device {
        updated_at: Some(now_text),
        ..orig
    });
    assert(db2.devices@ =~= ds.update(p, r->Ok_0));
}

/// A device moved to the recycle bin frees its serial and asset numbers:
/// afterwards no device in use carries them, so a new device may take them.
pub proof fn law_soft_delete_frees_numbers(db: Database, id: i32, now: String)
    requires
        db.wf(),
        soft_delete_hits(db.devices@, id),
    ensures
        ({
            let d = db.devices@[id_pos(device_ids(db.devices@), id)];
            &&& first_active_serial(soft_delete_seq(db.devices@, id, now), d.serial_no@, -1i32) is None
            &&& first_active_asset(soft_delete_seq(db.devices@, id, now), d.asset_no@, -1i32) is None
        }),
{
    let ds = db.devices@;
    let p = id_pos(device_ids(ds), id);
    lemma_id_pos_range(device_ids(ds), id);
    let d = ds[p];
    let ns = soft_delete_seq(ds, id, now);
    if first_active_serial(ns, d.serial_no@, -1i32) is Some {
        lemma_serial_found(ns, d.serial_no@, -1i32);
        let k = choose|k: int|
            0 <= k < ns.len() && is_active(#[trigger] ns[k]) && d.serial_no@.len() > 0 && ns[k].serial_no@
                == d.serial_no@ && ns[k].id != -1i32;
        assert(k != p);
        assert(ns[k] == ds[k]);
    }
    if first_active_asset(ns, d.asset_no@, -1i32) is Some {
        lemma_asset_found(ns, d.asset_no@, -1i32);
        let k = choose|k: int|
            0 <= k < ns.len() && is_active(#[trigger] ns[k]) && d.asset_no@.len() > 0 && ns[k].asset_no@
                == d.asset_no@ && ns[k].id != -1i32;
        assert(k != p);
        assert(ns[k] == ds[k]);
    }
}

/// Moving a device to the recycle bin twice moves it once: the second call
/// finds it already deleted and changes nothing.
pub proof fn law_soft_delete_is_idempotent(ds: Seq<Device>, id: i32, first: String, second: String)
    ensures
        !soft_delete_hits(soft_delete_seq(ds, id, first), id),
        soft_delete_seq(soft_delete_seq(ds, id, first), id, second) == soft_delete_seq(ds, id, first),
{
    lemma_id_pos_range(device_ids(ds), id);
    assert(device_ids(soft_delete_seq(ds, id, first)) =~= device_ids(ds));
}

/// A batch deletion accounts for every id it was given: the number deleted
/// and the ids reported as not found add up to the number of ids.
pub proof fn law_batch_accounts_for_every_id(ds: Seq<Device>, ids: Seq<i32>, now: String)
    ensures
        batch_deleted(ds, ids, now) + batch_not_found(ds, ids, now).len() == ids.len(),
    decreases ids.len(),
{
    if ids.len() > 0 {
        law_batch_accounts_for_every_id(ds, ids.drop_last(), now);
    }
}

// ---------------------------------------------------------------------------
// Queries
// ---------------------------------------------------------------------------

proof fn lemma_filtered_same(db: Database, f1: DeviceFilter, f2: DeviceFilter, ds: Seq<Device>)
    requires
        f1.include_deleted == f2.include_deleted,
        f1.only_deleted == f2.only_deleted,
        f1.rack_id == f2.rack_id,
        f1.room_id == f2.room_id,
        f1.pattern is None <==> f2.pattern is None,
        f1.pattern is Some ==> f1.pattern->0@ == f2.pattern->0@,
    ensures
        filtered(db, f1, ds) == filtered(db, f2, ds),
    decreases ds.len(),
{
    if ds.len() > 0 {
        lemma_filtered_same(db, f1, f2, ds.drop_last());
        assert(filter_keeps(db, f1, ds.last()) == filter_keeps(db, f2, ds.last()));
    }
}

/// The total that a query reports counts every device that passes its
/// filter, whatever page and order are asked for: two queries with the same
/// filter report the same total.
pub proof fn law_query_total_ignores_page_and_order(
    db: Database,
    q1: DeviceQuery,
    q2: DeviceQuery,
    items1: Seq<Device>,
    items2: Seq<Device>,
    total1: int,
    total2: int,
)
    requires
        q1.include_deleted == q2.include_deleted,
        q1.rack_id == q2.rack_id,
        q1.room_id == q2.room_id,
        q1.search == q2.search,
        query_result(db, q1, items1, total1),
        query_result(db, q2, items2, total2),
    ensures
        total1 == total2,
{
    let f1 = choose|flt: DeviceFilter|
        #[trigger] query_filter_ok(flt, q1) && items1 == crate::db::devices::page_of(
            sorted_by(filtered(db, flt, db.devices@), crate::db::devices::sort_field_of(q1.sort_field),
            crate::db::devices::sort_desc(q1.sort_order)),
            crate::db::devices::page_offset(q1.offset),
            crate::db::devices::page_limit(q1.limit),
        ) && total1 == filtered(db, flt, db.devices@).len();
    let f2 = choose|flt: DeviceFilter|
        #[trigger] query_filter_ok(flt, q2) && items2 == crate::db::devices::page_of(
            sorted_by(filtered(db, flt, db.devices@), crate::db::devices::sort_field_of(q2.sort_field),
            crate::db::devices::sort_desc(q2.sort_order)),
            crate::db::devices::page_offset(q2.offset),
            crate::db::devices::page_limit(q2.limit),
        ) && total2 == filtered(db, flt, db.devices@).len();
    lemma_filtered_same(db, f1, f2, db.devices@);
}

proof fn lemma_filtered_kept(db: Database, flt: DeviceFilter, ds: Seq<Device>, d: Device)
    requires
        filtered(db, flt, ds).contains(d),
    ensures
        filter_keeps(db, flt, d),
    decreases ds.len(),
{
    if ds.len() > 0 {
        let rest = filtered(db, flt, ds.drop_last());
        if !(filter_keeps(db, flt, ds.last()) && d == ds.last()) {
            if filter_keeps(db, flt, ds.last()) {
                let k = choose|k: int| 0 <= k < filtered(db, flt, ds).len() && filtered(db, flt, ds)[k] == d;
                assert(k < rest.len());
                assert(rest[k] == d);
            }
            assert(rest.contains(d));
            lemma_filtered_kept(db, flt, ds.drop_last(), d);
        }
    }
}

/// Listing the devices in use and querying them with the same rack and a
/// search term without outer blanks select the same devices: the query's
/// total is the listing's length, every listed device is in use, the
/// listing is in name order, and a query in ascending name order gives a
/// page of the listing.
pub proof fn law_list_agrees_with_query(
    db: Database,
    rack_id: Option<i32>,
    s: String,
    listed: Seq<Device>,
    q: DeviceQuery,
    items: Seq<Device>,
    total: int,
)
    requires
        trimmed(s@) == s@,
        q.rack_id == rack_id,
        q.room_id is None,
        q.search == Some(s),
        q.include_deleted != Some(true),
        list_result(db, rack_id, Some(s), listed),
        query_result(db, q, items, total),
    ensures
        total == listed.len(),
        forall|i: int| 0 <= i < listed.len() ==> is_active(#[trigger] listed[i]),
        in_order(listed, SortField::Name, false),
        sort_field_of(q.sort_field) == SortField::Name && !sort_desc(q.sort_order) ==> items == page_of(
            listed,
            page_offset(q.offset),
            page_limit(q.limit),
        ),
{
    let fl = choose|flt: DeviceFilter|
        #[trigger] list_filter_ok(flt, rack_id, Some(s)) && listed == sorted_by(
            filtered(db, flt, db.devices@),
            SortField::Name,
            false,
        );
    let fq = choose|flt: DeviceFilter|
        #[trigger] query_filter_ok(flt, q) && items == page_of(
            sorted_by(filtered(db, flt, db.devices@), sort_field_of(q.sort_field), sort_desc(q.sort_order)),
            page_offset(q.offset),
            page_limit(q.limit),
        ) && total == filtered(db, flt, db.devices@).len();
    lemma_filtered_same(db, fl, fq, db.devices@);
    let f = filtered(db, fl, db.devices@);
    law_sorted_listing_is_ordered(f, SortField::Name, false);
    assert(listed.to_multiset() == f.to_multiset());
    listed.to_multiset_ensures();
    f.to_multiset_ensures();
    assert forall|i: int| 0 <= i < listed.len() implies is_active(#[trigger] listed[i]) by {
        assert(listed.contains(listed[i]));
        assert(f.to_multiset().count(listed[i]) > 0);
        assert(f.contains(listed[i]));
        lemma_filtered_kept(db, fl, db.devices@, listed[i]);
    }
}

// ---------------------------------------------------------------------------
// Placement
// ---------------------------------------------------------------------------

proof fn lemma_no_overlap(ds: Seq<Device>, exclude: i32, rid: i32, s: i32, e: i32, k: int)
    requires
        first_overlap(ds, exclude, rid, s, e) is None,
        0 <= k < ds.len(),
    ensures
        !overlaps(ds[k], exclude, rid, s, e),
    decreases ds.len(),
{
    if k > 0 {
        lemma_no_overlap(ds.drop_first(), exclude, rid, s, e, k - 1);
    }
}

/// A device that creation places in a rack shares no slot with any device
/// in use in that rack.
pub proof fn law_created_device_overlaps_nothing(db: Database, data: DeviceCreate, d: Device, now: String)
    requires
        db.wf(),
        create_failure(db, data) is None,
        is_created_device(d, db, data, now),
        d.rack_id is Some,
        d.start_u is Some,
        d.end_u is Some,
    ensures
        forall|k: int|
            0 <= k < db.devices@.len() && is_active(#[trigger] db.devices@[k]) && db.devices@[k].rack_id
                == d.rack_id && db.devices@[k].start_u is Some && db.devices@[k].end_u is Some ==> db.devices@[k].end_u->0
                < d.start_u->0 || d.end_u->0 < db.devices@[k].start_u->0,
{
    let ip = match data.ip_addresses {
        Some(x) => Some(x@),
        None => None,
    };
    assert(input_failure(db, None, data.rack_id, data.start_u, data.end_u, ip, crate::db::devices::create_status(data))
        is None);
    assert(overlap_error(db, None, data.rack_id, data.start_u, data.end_u) is None);
    assert forall|k: int|
        0 <= k < db.devices@.len() && is_active(#[trigger] db.devices@[k]) && db.devices@[k].rack_id == d.rack_id
            && db.devices@[k].start_u is Some && db.devices@[k].end_u is Some implies db.devices@[k].end_u->0
        < d.start_u->0 || d.end_u->0 < db.devices@[k].start_u->0 by {
        lemma_no_overlap(db.devices@, exclusion(None), d.rack_id->0, d.start_u->0, d.end_u->0, k);
        assert(db.devices@[k].id != -1i32) by {
            assert(device_ids(db.devices@)[k] == db.devices@[k].id);
        }
    }
}

/// A device that an update moves (its rack or range touched) shares no
/// slot with any other device in use in its rack afterwards.
pub proof fn law_moved_device_overlaps_nothing(db: Database, p: int, data: DeviceUpdate, n: Device, now: String)
    requires
        db.wf(),
        0 <= p < db.devices@.len(),
        spatial_touched(data),
        update_failure(db, p, data) is None,
        is_updated_device(n, db.devices@[p], data, now),
        n.rack_id is Some,
        n.start_u is Some,
        n.end_u is Some,
    ensures
        forall|k: int|
            0 <= k < db.devices@.len() && k != p && is_active(#[trigger] db.devices@[k]) && db.devices@[k].rack_id
                == n.rack_id && db.devices@[k].start_u is Some && db.devices@[k].end_u is Some ==> db.devices@[k].end_u->0
                < n.start_u->0 || n.end_u->0 < db.devices@[k].start_u->0,
{
    let cur = db.devices@[p];
    assert(overlap_error(db, Some(cur.id), n.rack_id, n.start_u, n.end_u) is None);
    assert forall|k: int|
        0 <= k < db.devices@.len() && k != p && is_active(#[trigger] db.devices@[k]) && db.devices@[k].rack_id
            == n.rack_id && db.devices@[k].start_u is Some && db.devices@[k].end_u is Some implies db.devices@[k].end_u->0
        < n.start_u->0 || n.end_u->0 < db.devices@[k].start_u->0 by {
        lemma_no_overlap(db.devices@, exclusion(Some(cur.id)), n.rack_id->0, n.start_u->0, n.end_u->0, k);
        assert(db.devices@[k].id != cur.id) by {
            assert(device_ids(db.devices@)[k] == db.devices@[k].id);
            assert(device_ids(db.devices@)[p] == cur.id);
        }
    }
}

// ---------------------------------------------------------------------------
// Ordering
// ---------------------------------------------------------------------------

/// No element of `s` goes strictly before an earlier one under column `f`.
pub open spec fn in_order(s: Seq<Device>, f: SortField, desc: bool) -> bool {
    forall|i: int, j: int| 0 <= i < j < s.len() ==> !goes_before(#[trigger] s[j], #[trigger] s[i], f, desc)
}

proof fn lemma_key_before_irreflexive(a: Device, f: SortField)
    ensures
        !key_before(a, a, f),
{
    lemma_text_before_irreflexive(a.name@);
    lemma_text_before_irreflexive(a.ip_addresses@);
    lemma_text_before_irreflexive(a.serial_no@);
    lemma_text_before_irreflexive(a.asset_no@);
    lemma_text_before_irreflexive(a.status@);
    if a.created_at is Some {
        lemma_text_before_irreflexive(a.created_at->0@);
    }
    if a.updated_at is Some {
        lemma_text_before_irreflexive(a.updated_at->0@);
    }
    if a.deleted_at is Some {
        lemma_text_before_irreflexive(a.deleted_at->0@);
    }
}

proof fn lemma_opt_text_transitive(a: Option<String>, b: Option<String>, c: Option<String>)
    requires
        opt_text_before(a, b),
        opt_text_before(b, c),
    ensures
        opt_text_before(a, c),
{
    if a is Some {
        lemma_text_before_transitive(a->0@, b->0@, c->0@);
    }
}

proof fn lemma_key_before_transitive(a: Device, b: Device, c: Device, f: SortField)
    requires
        key_before(a, b, f),
        key_before(b, c, f),
    ensures
        key_before(a, c, f),
{
    match f {
        SortField::Name => lemma_text_before_transitive(a.name@, b.name@, c.name@),
        SortField::IpAddresses => lemma_text_before_transitive(a.ip_addresses@, b.ip_addresses@, c.ip_addresses@),
        SortField::SerialNo => lemma_text_before_transitive(a.serial_no@, b.serial_no@, c.serial_no@),
        SortField::AssetNo => lemma_text_before_transitive(a.asset_no@, b.asset_no@, c.asset_no@),
        SortField::Status => lemma_text_before_transitive(a.status@, b.status@, c.status@),
        SortField::PowerWatt => {},
        SortField::CreatedAt => lemma_opt_text_transitive(a.created_at, b.created_at, c.created_at),
        SortField::UpdatedAt => lemma_opt_text_transitive(a.updated_at, b.updated_at, c.updated_at),
        SortField::RackId => {},
        SortField::DeletedAt => lemma_opt_text_transitive(a.deleted_at, b.deleted_at, c.deleted_at),
    }
}

proof fn lemma_goes_before_transitive(a: Device, b: Device, c: Device, f: SortField, desc: bool)
    requires
        goes_before(a, b, f, desc),
        goes_before(b, c, f, desc),
    ensures
        goes_before(a, c, f, desc),
{
    if desc {
        lemma_key_before_transitive(c, b, a, f);
    } else {
        lemma_key_before_transitive(a, b, c, f);
    }
}

proof fn lemma_insert_sorted_spot(s: Seq<Device>, d: Device, f: SortField, desc: bool) -> (p: int)
    ensures
        0 <= p <= s.len(),
        insert_sorted(s, d, f, desc) == s.insert(p, d),
        forall|k: int| 0 <= k < p ==> !goes_before(d, #[trigger] s[k], f, desc),
        p < s.len() ==> goes_before(d, s[p], f, desc),
    decreases s.len(),
{
    if s.len() == 0 {
        assert(s.insert(0, d) =~= seq![d]);
        0
    } else if goes_before(d, s[0], f, desc) {
        assert(s.insert(0, d) =~= seq![d] + s);
        0
    } else {
        let q = lemma_insert_sorted_spot(s.drop_first(), d, f, desc);
        assert(seq![s[0]] + s.drop_first().insert(q, d) =~= s.insert(q + 1, d));
        assert forall|k: int| 0 <= k < q + 1 implies !goes_before(d, #[trigger] s[k], f, desc) by {
            if k > 0 {
                assert(s[k] == s.drop_first()[k - 1]);
            }
        }
        if q + 1 < s.len() {
            assert(s[q + 1] == s.drop_first()[q]);
        }
        q + 1
    }
}

/// A listing ordered by a column is in that order (no row goes before an
/// earlier one) and holds exactly the rows it was given.
pub proof fn law_sorted_listing_is_ordered(s: Seq<Device>, f: SortField, desc: bool)
    ensures
        in_order(sorted_by(s, f, desc), f, desc),
        sorted_by(s, f, desc).to_multiset() == s.to_multiset(),
    decreases s.len(),
{
    if s.len() > 0 {
        let prev = sorted_by(s.drop_last(), f, desc);
        let d = s.last();
        law_sorted_listing_is_ordered(s.drop_last(), f, desc);
        let p = lemma_insert_sorted_spot(prev, d, f, desc);
        let out = prev.insert(p, d);
        assert forall|i: int, j: int| 0 <= i < j < out.len() implies !goes_before(
            #[trigger] out[j],
            #[trigger] out[i],
            f,
            desc,
        ) by {
            if j < p {
                assert(out[i] == prev[i] && out[j] == prev[j]);
            } else if j == p {
                assert(out[i] == prev[i]);
            } else if i == p {
                assert(out[j] == prev[j - 1]);
                assert(goes_before(d, prev[p], f, desc));
                if goes_before(prev[j - 1], d, f, desc) {
                    lemma_goes_before_transitive(prev[j - 1], d, prev[p], f, desc);
                    if j - 1 == p {
                        if desc {
                            lemma_key_before_irreflexive(prev[p], f);
                        } else {
                            lemma_key_before_irreflexive(prev[p], f);
                        }
                    }
                }
            } else if i < p {
                assert(out[i] == prev[i] && out[j] == prev[j - 1]);
            } else {
                assert(out[i] == prev[i - 1] && out[j] == prev[j - 1]);
            }
        }
        to_multiset_insert(prev, p, d);
        assert(s =~= s.drop_last().push(d));
        vstd::seq_lib::to_multiset_build(s.drop_last(), d);
    }
}

// ---------------------------------------------------------------------------
// Find-or-create
// ---------------------------------------------------------------------------

proof fn lemma_first_rack_named_push(s: Seq<Rack>, x: Rack, name: Seq<char>)
    requires
        first_rack_named(s, name) is None,
        x.name@ == name,
    ensures
        first_rack_named(s.push(x), name) == Some(x),
    decreases s.len(),
{
    if s.len() > 0 {
        lemma_first_rack_named_push(s.drop_first(), x, name);
        assert(s.push(x).drop_first() =~= s.drop_first().push(x));
    }
}

/// Finding or creating a rack by name is stable: once a call has given an
/// id, the rack of that name is found with that id, so the same call again
/// gives the same id and changes nothing.
pub proof fn law_find_or_create_rack_is_stable(db0: Database, db1: Database, name: Seq<char>, id: i32)
    requires
        rack_found_or_created(db0, db1, name, Ok(id)),
    ensures
        first_rack_named(db1.racks@, name) matches Some(x) && x.id == id,
        forall|db2: Database, r: Result<i32, AppError>|
            #[trigger] rack_found_or_created(db1, db2, name, r) ==> r == Ok::<i32, AppError>(id) && db2 == db1,
{
    if first_rack_named(db0.racks@, name) is None {
        assert(db1.racks@ =~= db0.racks@.push(db1.racks@.last()));
        lemma_first_rack_named_push(db0.racks@, db1.racks@.last(), name);
    }
}

proof fn lemma_first_room_named_push(s: Seq<Room>, x: Room, name: Seq<char>)
    requires
        first_room_named(s, name) is None,
        x.name@ == name,
    ensures
        first_room_named(s.push(x), name) == Some(x),
    decreases s.len(),
{
    if s.len() > 0 {
        lemma_first_room_named_push(s.drop_first(), x, name);
        assert(s.push(x).drop_first() =~= s.drop_first().push(x));
    }
}

/// Finding or creating a room by name is stable: the same call again gives
/// the same id and changes nothing.
pub proof fn law_find_or_create_room_is_stable(db0: Database, db1: Database, name: Seq<char>, id: i32)
    requires
        room_found_or_created(db0, db1, name, Ok(id)),
    ensures
        first_room_named(db1.rooms@, name) matches Some(x) && x.id == id,
        forall|db2: Database, r: Result<i32, AppError>|
            #[trigger] room_found_or_created(db1, db2, name, r) ==> r == Ok::<i32, AppError>(id) && db2 == db1,
{
    if first_room_named(db0.rooms@, name) is None {
        assert(db1.rooms@ =~= db0.rooms@.push(db1.rooms@.last()));
        lemma_first_room_named_push(db0.rooms@, db1.rooms@.last(), name);
    }
}

proof fn lemma_first_model_named_push(s: Seq<DeviceModel>, x: DeviceModel, name: Seq<char>)
    requires
        first_model_named(s, name) is None,
        x.name@ == name,
    ensures
        first_model_named(s.push(x), name) == Some(x),
    decreases s.len(),
{
    if s.len() > 0 {
        lemma_first_model_named_push(s.drop_first(), x, name);
        assert(s.push(x).drop_first() =~= s.drop_first().push(x));
    }
}

/// Finding or creating a device model by name is stable: the same call
/// again gives the same id and changes nothing.
pub proof fn law_find_or_create_model_is_stable(db0: Database, db1: Database, name: Seq<char>, id: i32)
    requires
        model_found_or_created(db0, db1, name, Ok(id)),
    ensures
        first_model_named(db1.device_models@, name) matches Some(x) && x.id == id,
        forall|db2: Database, r: Result<i32, AppError>|
            #[trigger] model_found_or_created(db1, db2, name, r) ==> r == Ok::<i32, AppError>(id) && db2 == db1,
{
    if first_model_named(db0.device_models@, name) is None {
        assert(db1.device_models@ =~= db0.device_models@.push(db1.device_models@.last()));
        lemma_first_model_named_push(db0.device_models@, db1.device_models@.last(), name);
    }
}

// ---------------------------------------------------------------------------
// Device types
// ---------------------------------------------------------------------------

/// One of the eight device types.
pub open spec fn is_device_type(t: Seq<char>) -> bool {
    ||| t == "server"@
    ||| t == "switch"@
    ||| t == "router"@
    ||| t == "storage"@
    ||| t == "nas"@
    ||| t == "security"@
    ||| t == "loadbalancer"@
    ||| t == "other"@
}

/// Normalising any text gives one of the eight device types.
pub proof fn law_normalized_type_is_a_device_type(raw: Seq<char>)
    ensures
        is_device_type(normalized_type(raw)),
{
}


/// A character that normalisation drops: white space, `_` or `-`.
pub open spec fn is_type_separator(c: char) -> bool {
    is_white_space(c) || c == '_' || c == '-'
}

/// `s` with `a`–`z` raised (`str::to_ascii_uppercase`).
pub open spec fn ascii_upper(s: Seq<char>) -> Seq<char> {
    s.map_values(|c: char| if 'a' <= c <= 'z' { ((c as u32) - 32) as char } else { c })
}

proof fn lemma_drop_concat(a: Seq<char>, b: Seq<char>)
    ensures
        drop_separators(a + b) == drop_separators(a) + drop_separators(b),
    decreases b.len(),
{
    if b.len() == 0 {
        assert(a + b =~= a);
        assert(drop_separators(a) + drop_separators(b) =~= drop_separators(a));
    } else {
        assert((a + b).drop_last() =~= a + b.drop_last());
        assert((a + b).last() == b.last());
        lemma_drop_concat(a, b.drop_last());
        assert((drop_separators(a) + drop_separators(b.drop_last())).push(b.last()) =~= drop_separators(a)
            + drop_separators(b.drop_last()).push(b.last()));
    }
}

proof fn lemma_drop_all_separators(s: Seq<char>)
    requires
        forall|i: int| 0 <= i < s.len() ==> is_type_separator(#[trigger] s[i]),
    ensures
        drop_separators(s) == Seq::<char>::empty(),
    decreases s.len(),
{
    if s.len() > 0 {
        assert(s.last() == s[s.len() - 1]);
        lemma_drop_all_separators(s.drop_last());
    }
}

proof fn lemma_drop_none(s: Seq<char>)
    requires
        forall|i: int| 0 <= i < s.len() ==> !is_type_separator(#[trigger] s[i]),
    ensures
        drop_separators(s) == s,
    decreases s.len(),
{
    if s.len() > 0 {
        assert(s.last() == s[s.len() - 1]);
        lemma_drop_none(s.drop_last());
        assert(s.drop_last().push(s.last()) =~= s);
    }
}

proof fn lemma_trim_start_cut(s: Seq<char>) -> (k: int)
    ensures
        0 <= k <= s.len(),
        trim_start(s) == s.subrange(k, s.len() as int),
        forall|j: int| 0 <= j < k ==> is_white_space(#[trigger] s[j]),
    decreases s.len(),
{
    if s.len() > 0 && is_white_space(s[0]) {
        let k1 = lemma_trim_start_cut(s.drop_first());
        assert(s.drop_first().subrange(k1, s.drop_first().len() as int) =~= s.subrange(k1 + 1, s.len() as int));
        assert forall|j: int| 0 <= j < k1 + 1 implies is_white_space(#[trigger] s[j]) by {
            if j > 0 {
                assert(s[j] == s.drop_first()[j - 1]);
            }
        }
        k1 + 1
    } else {
        assert(s.subrange(0, s.len() as int) =~= s);
        0
    }
}

proof fn lemma_trim_end_cut(s: Seq<char>) -> (k: int)
    ensures
        0 <= k <= s.len(),
        trim_end(s) == s.subrange(0, k),
        forall|j: int| k <= j < s.len() ==> is_white_space(#[trigger] s[j]),
    decreases s.len(),
{
    if s.len() > 0 && is_white_space(s.last()) {
        let k1 = lemma_trim_end_cut(s.drop_last());
        assert(s.drop_last().subrange(0, k1) =~= s.subrange(0, k1));
        assert forall|j: int| k1 <= j < s.len() implies is_white_space(#[trigger] s[j]) by {
            if j < s.len() - 1 {
                assert(s[j] == s.drop_last()[j]);
            }
        }
        k1
    } else {
        assert(s.subrange(0, s.len() as int) =~= s);
        s.len() as int
    }
}

proof fn lemma_lower_concat(a: Seq<char>, b: Seq<char>)
    ensures
        ascii_lower(a + b) == ascii_lower(a) + ascii_lower(b),
{
    assert(ascii_lower(a + b) =~= ascii_lower(a) + ascii_lower(b));
}

/// On text of ASCII and Han characters the lookup key is the lowered text
/// without separators: trimming changes nothing that dropping separators
/// would keep.
proof fn lemma_ascii_key(x: Seq<char>)
    requires
        is_ascii_or_han_text(x),
    ensures
        type_key(x) == drop_separators(ascii_lower(x)),
{
    let k = lemma_trim_start_cut(x);
    let m = x.subrange(k, x.len() as int);
    let j = lemma_trim_end_cut(m);
    let t = m.subrange(0, j);
    assert(trimmed(x) == t);
    let p = x.subrange(0, k);
    let q = m.subrange(j, m.len() as int);
    assert(x =~= p + t + q);
    assert forall|i: int| 0 <= i < t.len() implies (#[trigger] t[i] as u32) < 128 || is_han(t[i]) by {
        assert(t[i] == x[k + i]);
    }
    assert(lowered(t) == ascii_lower(t));
    lemma_lower_concat(p, t);
    lemma_lower_concat(p + t, q);
    assert forall|i: int| 0 <= i < ascii_lower(p).len() implies is_type_separator(#[trigger] ascii_lower(p)[i]) by {
        assert(is_white_space(x[i]));
        assert(ascii_lower(p)[i] == ascii_fold(p[i]));
    }
    assert forall|i: int| 0 <= i < ascii_lower(q).len() implies is_type_separator(#[trigger] ascii_lower(q)[i]) by {
        assert(is_white_space(m[j + i]));
        assert(ascii_lower(q)[i] == ascii_fold(q[i]));
    }
    lemma_drop_all_separators(ascii_lower(p));
    lemma_drop_all_separators(ascii_lower(q));
    lemma_drop_concat(ascii_lower(p), ascii_lower(t));
    lemma_drop_concat(ascii_lower(p) + ascii_lower(t), ascii_lower(q));
    assert(drop_separators(ascii_lower(p)) + drop_separators(ascii_lower(t)) =~= drop_separators(ascii_lower(t)));
    assert(drop_separators(ascii_lower(t)) + drop_separators(ascii_lower(q)) =~= drop_separators(ascii_lower(t)));
}

/// On text of ASCII and Han characters, normalisation ignores white space,
/// `_` and `-`: one more of them between two texts gives the same device
/// type.
pub proof fn law_normalization_ignores_separators(a: Seq<char>, b: Seq<char>, c: char)
    requires
        is_ascii_or_han_text(a),
        is_ascii_or_han_text(b),
        (c as u32) < 128,
        is_type_separator(c),
    ensures
        normalized_type(a + seq![c] + b) == normalized_type(a + b),
{
    let x = a + seq![c] + b;
    assert forall|i: int| 0 <= i < x.len() implies (#[trigger] x[i] as u32) < 128 || is_han(x[i]) by {
        if i < a.len() {
            assert(x[i] == a[i]);
        } else if i == a.len() {
            assert(x[i] == c);
        } else {
            assert(x[i] == b[i - a.len() - 1]);
        }
    }
    assert forall|i: int| 0 <= i < (a + b).len() implies (#[trigger] (a + b)[i] as u32) < 128 || is_han((a + b)[i]) by {
        if i < a.len() {
            assert((a + b)[i] == a[i]);
        } else {
            assert((a + b)[i] == b[i - a.len()]);
        }
    }
    lemma_ascii_key(x);
    lemma_ascii_key(a + b);
    lemma_lower_concat(a, seq![c]);
    lemma_lower_concat(a + seq![c], b);
    lemma_lower_concat(a, b);
    assert(ascii_lower(seq![c]) =~= seq![ascii_fold(c)]);
    assert(is_type_separator(ascii_lower(seq![c])[0]));
    lemma_drop_all_separators(ascii_lower(seq![c]));
    lemma_drop_concat(ascii_lower(a), ascii_lower(seq![c]));
    lemma_drop_concat(ascii_lower(a) + ascii_lower(seq![c]), ascii_lower(b));
    lemma_drop_concat(ascii_lower(a), ascii_lower(b));
    assert(drop_separators(ascii_lower(a)) + drop_separators(ascii_lower(seq![c])) =~= drop_separators(ascii_lower(a)));
}

/// On text of ASCII and Han characters, normalisation ignores letter case:
/// the text with its ASCII letters raised gives the same device type.
pub proof fn law_normalization_ignores_ascii_case(s: Seq<char>)
    requires
        is_ascii_or_han_text(s),
    ensures
        normalized_type(ascii_upper(s)) == normalized_type(s),
{
    let u = ascii_upper(s);
    assert forall|i: int| 0 <= i < u.len() implies ((#[trigger] u[i] as u32) < 128 || is_han(u[i])) && ascii_fold(u[i]) == ascii_fold(s[i]) by {
        assert((s[i] as u32) < 128 || is_han(s[i]));
    }
    lemma_ascii_key(s);
    lemma_ascii_key(u);
    assert(ascii_lower(u) =~= ascii_lower(s));
}

proof fn lemma_word_key(t: Seq<char>)
    requires
        t.len() > 0,
        forall|i: int| 0 <= i < t.len() ==> 'a' <= #[trigger] t[i] <= 'z',
    ensures
        type_key(t) == t,
{
    assert forall|i: int| 0 <= i < t.len() implies (#[trigger] t[i] as u32) < 128 && !is_type_separator(t[i]) by {
        assert('a' <= t[i] <= 'z');
    }
    lemma_ascii_key(t);
    assert(ascii_lower(t) =~= t);
    lemma_drop_none(t);
}

/// Normalising twice normalises once: a device type stands for itself.
pub proof fn law_normalization_is_idempotent(raw: Seq<char>)
    ensures
        normalized_type(normalized_type(raw)) == normalized_type(raw),
{
    let t = normalized_type(raw);
    reveal_strlit("server");
    reveal_strlit("switch");
    reveal_strlit("router");
    reveal_strlit("storage");
    reveal_strlit("nas");
    reveal_strlit("security");
    reveal_strlit("loadbalancer");
    reveal_strlit("other");
    reveal_strlit("服务器");
    reveal_strlit("交换机");
    reveal_strlit("路由器");
    reveal_strlit("存储阵列");
    reveal_strlit("存储");
    reveal_strlit("nas存储");
    reveal_strlit("网安设备");
    reveal_strlit("安全设备");
    reveal_strlit("负载均衡");
    reveal_strlit("lb");
    assert forall|i: int| 0 <= i < t.len() implies 'a' <= #[trigger] t[i] <= 'z' by {}
    lemma_word_key(t);
}

proof fn lemma_han_key(t: Seq<char>)
    requires
        forall|i: int| 0 <= i < t.len() ==> is_han(#[trigger] t[i]),
    ensures
        type_key(t) == t,
{
    assert forall|i: int| 0 <= i < t.len() implies (#[trigger] t[i] as u32) < 128 || is_han(t[i]) by {
        assert(is_han(t[i]));
    }
    lemma_ascii_key(t);
    assert forall|i: int| 0 <= i < t.len() implies !is_type_separator(#[trigger] t[i]) by {
        assert(is_han(t[i]));
    }
    assert(ascii_lower(t) =~= t);
    lemma_drop_none(t);
}

/// The Chinese label of each of the eight device types normalises back to
/// that type, and the label of any other text (`其他`) to `other`.
pub proof fn law_type_label_round_trip(t: Seq<char>)
    ensures
        normalized_type(type_label(t)) == (if is_device_type(t) {
            t
        } else {
            "other"@
        }),
{
    reveal_strlit("server");
    reveal_strlit("switch");
    reveal_strlit("router");
    reveal_strlit("storage");
    reveal_strlit("nas");
    reveal_strlit("security");
    reveal_strlit("loadbalancer");
    reveal_strlit("other");
    reveal_strlit("服务器");
    reveal_strlit("交换机");
    reveal_strlit("路由器");
    reveal_strlit("存储阵列");
    reveal_strlit("存储");
    reveal_strlit("nas存储");
    reveal_strlit("网安设备");
    reveal_strlit("安全设备");
    reveal_strlit("负载均衡");
    reveal_strlit("lb");
    reveal_strlit("其他");
    reveal_strlit("NAS 存储");
    let l = type_label(t);
    if t == "nas"@ {
        let x = "NAS 存储"@;
        assert("nas"@ != "server"@ && "nas"@ != "switch"@ && "nas"@ != "router"@ && "nas"@ != "storage"@) by {
            assert("nas"@.len() != "server"@.len());
            assert("nas"@.len() != "storage"@.len());
        }
        assert(l == x);
        assert forall|i: int| 0 <= i < x.len() implies (#[trigger] x[i] as u32) < 128 || is_han(x[i]) by {}
        lemma_ascii_key(x);
        let w = "nas"@;
        let h = "存储"@;
        assert(ascii_lower(x) =~= w + seq![' '] + h);
        lemma_drop_concat(w, seq![' ']);
        lemma_drop_concat(w + seq![' '], h);
        lemma_drop_all_separators(seq![' ']);
        assert forall|i: int| 0 <= i < w.len() implies !is_type_separator(#[trigger] w[i]) by {}
        lemma_drop_none(w);
        lemma_han_key(h);
        assert forall|i: int| 0 <= i < h.len() implies !is_type_separator(#[trigger] h[i]) by {}
        lemma_drop_none(h);
        assert(type_key(l) =~= "nas存储"@);
    } else {
        assert(forall|i: int| 0 <= i < l.len() ==> is_han(#[trigger] l[i]));
        lemma_han_key(l);
    }
}

// ---------------------------------------------------------------------------
// Report
// ---------------------------------------------------------------------------

proof fn lemma_room_used_update(db: Database, ds: Seq<Device>, k: int, d2: Device, room: i32)
    requires
        0 <= k < ds.len(),
    ensures
        room_used(db, ds.update(k, d2), room) - room_used(db, seq![d2], room) == room_used(db, ds, room) - room_used(
            db,
            seq![ds[k]],
            room,
        ),
    decreases ds.len(),
{
    let us = ds.update(k, d2);
    assert(seq![d2].drop_last() =~= Seq::<Device>::empty());
    assert(seq![ds[k]].drop_last() =~= Seq::<Device>::empty());
    if k == ds.len() - 1 {
        assert(us.drop_last() =~= ds.drop_last());
    } else {
        assert(us.drop_last() =~= ds.drop_last().update(k, d2));
        assert(us.last() == ds.last());
        lemma_room_used_update(db, ds.drop_last(), k, d2, room);
    }
}

/// Devices in the recycle bin take no slots in the report's room use: one
/// more such device changes no room's used slots; moving a device to the
/// recycle bin never adds to them; and moving one in use that stands in a
/// rack of the room with a positive height takes that height off.
pub proof fn law_room_use_counts_devices_in_use(db: Database, ds: Seq<Device>, d: Device, id: i32, now: String, room: i32)
    ensures
        !is_active(d) ==> room_used(db, ds.push(d), room) == room_used(db, ds, room),
        room_used(db, soft_delete_seq(ds, id, now), room) <= room_used(db, ds, room),
        ({
            let p = id_pos(device_ids(ds), id);
            soft_delete_hits(ds, id) && ds[p].rack_id is Some && rack_in_room(db, ds[p].rack_id->0, room)
                && ds[p].height_u > 0 ==> room_used(db, soft_delete_seq(ds, id, now), room) == room_used(db, ds, room)
                - ds[p].height_u
        }),
{
    assert(ds.push(d).drop_last() =~= ds);
    let p = id_pos(device_ids(ds), id);
    lemma_id_pos_range(device_ids(ds), id);
    if soft_delete_hits(ds, id) {
        let d2 = Device { deleted_at: Some(now), updated_at: Some(now), ..ds[p] };
        assert(0 <= p < ds.len());
        lemma_room_used_update(db, ds, p, d2, room);
        assert(seq![d2].drop_last() =~= Seq::<Device>::empty());
        assert(seq![ds[p]].drop_last() =~= Seq::<Device>::empty());
        assert(seq![d2].last() == d2);
        assert(seq![ds[p]].last() == ds[p]);
        assert(room_used(db, Seq::<Device>::empty(), room) == 0);
        assert(room_used(db, seq![d2], room) == 0);
        assert(room_used(db, seq![ds[p]], room) >= 0);
    }
}

// ---------------------------------------------------------------------------
// Room filter
// ---------------------------------------------------------------------------

/// Every device a query gives passes the query's filters: asked for the
/// devices of a room, it gives only devices placed in a rack of that room
/// (a device without a rack is never in a room); asked for a rack, only
/// devices in that rack; not asked for deleted devices, only devices in
/// use.
pub proof fn law_query_items_pass_its_filters(db: Database, q: DeviceQuery, items: Seq<Device>, total: int)
    requires
        query_result(db, q, items, total),
    ensures
        forall|i: int|
            0 <= i < items.len() ==> (q.room_id is Some ==> (#[trigger] items[i]).rack_id is Some && exists|j: int|
                0 <= j < db.racks@.len() && db.racks@[j].id == items[i].rack_id->0 && db.racks@[j].room_id == q.room_id),
        forall|i: int| 0 <= i < items.len() ==> (q.rack_id is Some ==> (#[trigger] items[i]).rack_id == q.rack_id),
        forall|i: int| 0 <= i < items.len() ==> (q.include_deleted != Some(true) ==> is_active(#[trigger] items[i])),
{
    let fq = choose|flt: DeviceFilter|
        #[trigger] query_filter_ok(flt, q) && items == page_of(
            sorted_by(filtered(db, flt, db.devices@), sort_field_of(q.sort_field), sort_desc(q.sort_order)),
            page_offset(q.offset),
            page_limit(q.limit),
        ) && total == filtered(db, flt, db.devices@).len();
    let f = filtered(db, fq, db.devices@);
    let sorted = sorted_by(f, sort_field_of(q.sort_field), sort_desc(q.sort_order));
    law_sorted_listing_is_ordered(f, sort_field_of(q.sort_field), sort_desc(q.sort_order));
    sorted.to_multiset_ensures();
    f.to_multiset_ensures();
    assert forall|i: int| 0 <= i < items.len() implies (q.room_id is Some ==> (#[trigger] items[i]).rack_id is Some && (exists|j: int|
        0 <= j < db.racks@.len() && db.racks@[j].id == items[i].rack_id->0 && db.racks@[j].room_id == q.room_id))
        && (q.rack_id is Some ==> items[i].rack_id == q.rack_id) && (q.include_deleted != Some(true) ==> is_active(
        items[i])) by {
        let off = page_offset(q.offset);
        assert(items[i] == sorted[off + i]);
        assert(sorted.contains(items[i]));
        assert(f.to_multiset().count(items[i]) > 0);
        assert(f.contains(items[i]));
        lemma_filtered_kept(db, fq, db.devices@, items[i]);
        if q.room_id is Some {
            let rid = items[i].rack_id->0;
            lemma_id_pos_range(rack_ids(db.racks@), rid);
            let j = id_pos(rack_ids(db.racks@), rid);
            assert(rack_ids(db.racks@)[j] == db.racks@[j].id);
        }
    }
}

/// An update that touches a device's rack or range and goes through leaves
/// a device placed in a rack with both ends within that rack: the rack
/// exists and the end slot is no higher than its height.
pub proof fn law_updated_device_fits_its_rack(db: Database, p: int, data: DeviceUpdate, n: Device, now: String)
    requires
        0 <= p < db.devices@.len(),
        spatial_touched(data),
        update_failure(db, p, data) is None,
        is_updated_device(n, db.devices@[p], data, now),
        n.rack_id is Some,
        n.start_u is Some,
        n.end_u is Some,
    ensures
        exists|j: int|
            0 <= j < db.racks@.len() && db.racks@[j].id == n.rack_id->0 && n.end_u->0 <= db.racks@[j].height_u,
        1 <= n.start_u->0 <= n.end_u->0,
{
    let rid = n.rack_id->0;
    lemma_id_pos_range(rack_ids(db.racks@), rid);
    let j = id_pos(rack_ids(db.racks@), rid);
    assert(j >= 0);
    assert(rack_ids(db.racks@)[j] == db.racks@[j].id);
}

// ---------------------------------------------------------------------------
// Rack sheets
// ---------------------------------------------------------------------------

proof fn lemma_label_rows(height: int, top: int, c: int)
    requires
        0 <= c,
    ensures
        label_writes(height, top, c).len() == c,
        forall|j: int| 0 <= j < c ==> #[trigger] label_writes(height, top, c)[j] == (top + j, 0int, int_text(height - j) + "U"@),
    decreases c,
{
    if c > 0 {
        lemma_label_rows(height, top, c - 1);
        let prev = label_writes(height, top, c - 1);
        let u = height - c + 1;
        assert(label_writes(height, top, c) == prev + seq![(top + height - u, 0int, int_text(u) + "U"@)]);
        assert forall|j: int| 0 <= j < c implies #[trigger] label_writes(height, top, c)[j] == (top + j, 0int, int_text(
            height - j,
        ) + "U"@) by {
            if j < c - 1 {
                assert(label_writes(height, top, c)[j] == prev[j]);
            }
        }
    }
}

proof fn lemma_slot_rows(height: int, top: int, col: int, name: Seq<char>, from: int, to: int)
    requires
        1 <= from,
        to <= height,
    ensures
        from <= to + 1 ==> slot_writes(height, top, col, name, from, to).len() == to - from + 1,
        forall|k: int|
            0 <= k <= to - from ==> #[trigger] slot_writes(height, top, col, name, from, to)[k] == (top + height - (from + k), col, name),
    decreases to - from + 1,
{
    if from <= to {
        lemma_slot_rows(height, top, col, name, from + 1, to);
        let rest = slot_writes(height, top, col, name, from + 1, to);
        assert(slot_writes(height, top, col, name, from, to) == seq![(top + height - from, col, name)] + rest);
        assert forall|k: int| 0 <= k <= to - from implies #[trigger] slot_writes(height, top, col, name, from, to)[k] == (top
            + height - (from + k), col, name) by {
            if k > 0 {
                assert(slot_writes(height, top, col, name, from, to)[k] == rest[k - 1]);
            }
        }
    }
}

/// In a rack grid each device text stands on the row of the label of the
/// slot it fills: of a device that spans slots `from..=to` within the rack,
/// the text written for slot `u` shares its row with the label `uU`.
pub proof fn law_device_text_beside_slot_label(height: int, top: int, col: int, name: Seq<char>, from: int, to: int, u: int)
    requires
        1 <= from <= u <= to <= height,
    ensures
        exists|j: int|
            #![trigger label_writes(height, top, height)[j]]
            {
                &&& 0 <= j < label_writes(height, top, height).len()
                &&& label_writes(height, top, height)[j].2 == int_text(u) + "U"@
                &&& slot_writes(height, top, col, name, from, to)[u - from] == (
                    label_writes(height, top, height)[j].0,
                    col,
                    name,
                )
            },
        u - from < slot_writes(height, top, col, name, from, to).len(),
{
    lemma_label_rows(height, top, height);
    lemma_slot_rows(height, top, col, name, from, to);
    let j = height - u;
    assert(label_writes(height, top, height)[j] == (top + j, 0int, int_text(height - j) + "U"@));
}

// ---------------------------------------------------------------------------
// Import: finding the existing device
// ---------------------------------------------------------------------------

proof fn lemma_no_serial_match(ds: Seq<Device>, sn: Seq<char>, exclude: i32)
    requires
        forall|k: int| 0 <= k < ds.len() && is_active(#[trigger] ds[k]) && sn.len() > 0 ==> ds[k].serial_no@ != sn,
    ensures
        first_active_serial(ds, sn, exclude) is None,
    decreases ds.len(),
{
    if ds.len() > 0 {
        assert forall|k: int| 0 <= k < ds.drop_first().len() && is_active(#[trigger] ds.drop_first()[k]) && sn.len()
            > 0 implies ds.drop_first()[k].serial_no@ != sn by {
            assert(ds.drop_first()[k] == ds[k + 1]);
        }
        lemma_no_serial_match(ds.drop_first(), sn, exclude);
    }
}

proof fn lemma_no_asset_match(ds: Seq<Device>, an: Seq<char>, exclude: i32)
    requires
        forall|k: int| 0 <= k < ds.len() && is_active(#[trigger] ds[k]) && an.len() > 0 ==> ds[k].asset_no@ != an,
    ensures
        first_active_asset(ds, an, exclude) is None,
    decreases ds.len(),
{
    if ds.len() > 0 {
        assert forall|k: int| 0 <= k < ds.drop_first().len() && is_active(#[trigger] ds.drop_first()[k]) && an.len()
            > 0 implies ds.drop_first()[k].asset_no@ != an by {
            assert(ds.drop_first()[k] == ds[k + 1]);
        }
        lemma_no_asset_match(ds.drop_first(), an, exclude);
    }
}

proof fn lemma_named_in_rack_found(ds: Seq<Device>, name: Seq<char>, rid: Option<i32>, k: int)
    requires
        0 <= k < ds.len(),
        is_active(ds[k]),
        ds[k].name@ == name,
        ds[k].rack_id == rid,
    ensures
        first_named_in_rack(ds, name, rid) is Some,
    decreases ds.len(),
{
    if k > 0 && !(is_active(ds[0]) && ds[0].name@ == name && ds[0].rack_id == rid) {
        assert(ds.drop_first()[k - 1] == ds[k]);
        lemma_named_in_rack_found(ds.drop_first(), name, rid, k - 1);
    }
}

/// A sheet row whose serial and asset numbers match no device in use, but
/// whose name matches a device in use standing in the row's rack (a rack
/// that exists), finds that device: the import creates no device for it.
/// With `skip` the row is counted as skipped and the tables stay as they
/// are; with `overwrite` it is counted as updated, or as skipped when a
/// rule rejects the update.
pub proof fn law_import_finds_device_by_name_in_rack(
    a: Database,
    b: Database,
    p: ImportRow,
    opts: ImportOptions,
    now: String,
    t0: Tally,
    t1: Tally,
    k: int,
)
    requires
        row_step(a, b, p, opts, now, t0, t1),
        p.rack_name@.len() > 0,
        first_rack_named(a.racks@, p.rack_name@) is Some,
        forall|j: int|
            0 <= j < a.devices@.len() && is_active(#[trigger] a.devices@[j]) ==> (p.serial_no@.len() == 0
                || a.devices@[j].serial_no@ != p.serial_no@) && (p.asset_no@.len() == 0 || a.devices@[j].asset_no@
                != p.asset_no@),
        0 <= k < a.devices@.len(),
        is_active(a.devices@[k]),
        a.devices@[k].name@ == p.name@,
        a.devices@[k].rack_id == Some(first_rack_named(a.racks@, p.rack_name@)->0.id),
    ensures
        t1.imported == t0.imported,
        !overwrites(opts) ==> b == a && t1.skipped == t0.skipped + 1 && t1.updated == t0.updated,
        overwrites(opts) ==> t1.updated + t1.skipped == t0.updated + t0.skipped + 1,
{
    let x = first_rack_named(a.racks@, p.rack_name@)->0;
    let rid = Some(x.id);
    lemma_no_serial_match(a.devices@, p.serial_no@, -1i32);
    lemma_no_asset_match(a.devices@, p.asset_no@, -1i32);
    lemma_named_in_rack_found(a.devices@, p.name@, rid, k);
    assert(existing_device(a, p, rid) is Some);
    if row_ok(a, b, p, opts, now, t0, t1) {
        reveal(row_ok);
        let (a1, am, a2, a3, rid1, room_id, mdata, m, mid, created, w, u, fu, c, fi) = choose|a1: Database, am: Database,
            a2: Database, a3: Database, rid1: Option<i32>, room_id: i32, mdata: DeviceModelCreate, m: DeviceModel, mid:
            Option<i32>, created: bool, w: Seq<Seq<char>>, u: DeviceUpdate, fu: Result<Option<Device>, AppError>, c:
            DeviceCreate, fi: Result<Device, AppError>|
            #[trigger] row_trace(a, a1, am, a2, a3, b, rid1, room_id, mdata, m, mid, created, w, u, fu, c, fi, p, opts, now, t0, t1);
        assert(a1 == a && rid1 == rid);
    } else {
        assert(row_skipped(a, b, p, opts, now, t0, t1));
        let (e, tm) = choose|e: AppError, tm: Tally|
            #![trigger row_fails(a, b, p, opts, now, e, t0, tm)]
            row_fails(a, b, p, opts, now, e, t0, tm) && rejects(e) && t1 == Tally {
                skipped: tm.skipped + 1,
                warnings: tm.warnings.push(skip_warning(p.row_no as int, e)),
                ..tm
            };
        reveal(row_fails);
        let (a1, am, a2, a3, rid1, room_id, mdata, m, mid, created, w, u, c) = choose|a1: Database, am: Database,
            a2: Database, a3: Database, rid1: Option<i32>, room_id: i32, mdata: DeviceModelCreate, m: DeviceModel, mid:
            Option<i32>, created: bool, w: Seq<Seq<char>>, u: DeviceUpdate, c: DeviceCreate|
            #[trigger] row_fail_trace(a, a1, am, a2, a3, rid1, room_id, mdata, m, mid, created, w, u, c, p, opts, now, e, b, t0, tm);
        assert(!rack_found_or_created(a, a, p.rack_name@, Err(e)));
        assert(a1 == a && rid1 == rid);
    }
}

/// A room's used slots grow by a device only when it is in use and placed
/// in a rack of that room: a device without a rack, or in a rack of
/// another room (or of none), adds nothing; one in use in a rack of the
/// room adds its height when that is positive.
pub proof fn law_room_use_adds_devices_of_the_room(db: Database, ds: Seq<Device>, d: Device, room: i32)
    ensures
        d.rack_id is None ==> room_used(db, ds.push(d), room) == room_used(db, ds, room),
        d.rack_id is Some && !rack_in_room(db, d.rack_id->0, room) ==> room_used(db, ds.push(d), room) == room_used(
            db,
            ds,
            room,
        ),
        d.height_u <= 0 ==> room_used(db, ds.push(d), room) == room_used(db, ds, room),
        is_active(d) && d.rack_id is Some && rack_in_room(db, d.rack_id->0, room) && d.height_u > 0 ==> room_used(
            db,
            ds.push(d),
            room,
        ) == room_used(db, ds, room) + d.height_u,
{
    assert(ds.push(d).drop_last() =~= ds);
}

/// The slot labels of a rack grid run from the top slot down: the label of
/// the highest slot stands on the grid's top row, and the label of each
/// slot stands one row below that of the slot above it.
pub proof fn law_labels_run_from_top_slot_down(height: int, top: int, u: int)
    requires
        1 <= u < height,
    ensures
        label_writes(height, top, height)[0] == (top, 0int, int_text(height) + "U"@),
        exists|j: int|
            #![trigger label_writes(height, top, height)[j]]
            {
                &&& 0 < j < height
                &&& label_writes(height, top, height)[j].2 == int_text(u) + "U"@
                &&& label_writes(height, top, height)[j - 1].2 == int_text(u + 1) + "U"@
                &&& label_writes(height, top, height)[j].0 == label_writes(height, top, height)[j - 1].0 + 1
            },
{
    lemma_label_rows(height, top, height);
    let j = height - u;
    assert(label_writes(height, top, height)[j - 1] == (top + j - 1, 0int, int_text(height - (j - 1)) + "U"@));
    assert(label_writes(height, top, height)[j] == (top + j, 0int, int_text(height - j) + "U"@));
}
} // verus!
