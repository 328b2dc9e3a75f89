//! The requests of the user interface that check more than the tables do:
//! names that may not be blank or too long, batch deletion (each id once,
//! a bounded batch), deleting for good only from the recycle bin, and the
//! answers about logging, health, backups and restores.
use vstd::prelude::*;
use crate::db::is_utc_stamp;
use crate::db::{Database, id_pos, device_ids, is_active, now_iso};
use crate::db::devices::{device_at, device_inserted, insert_device, delete_devices_batch, batch_seq, batch_deleted,
    batch_not_found, purge_hits, get_device, query_devices, query_result, Failure, failure_is};
use crate::db::racks::{insert_rack, rack_create_failure, is_created_rack, same_but_racks};
use crate::db::rooms::{insert_room, room_create_failure, is_created_room, same_but_rooms};
use crate::db::device_models::{insert_device_model, model_inserted};
use crate::db::settings::{is_logging_enabled, logging_on};
use crate::error::{AppError, is_validation, is_not_found, code_name};
use crate::models::{Device, DeviceCreate, DeviceQuery, DevicePage, DeleteBatchResult, DbHealth, RestoreResult, Rack,
    RackCreate, Room, RoomCreate, DeviceModel, DeviceModelCreate};
use crate::text::{chars_of, concat2, concat3, int_to_text, int_text, owned, trim_str, trimmed, uint_to_text};

verus! {

/// At most this many devices are deleted in one batch.
pub const DELETE_BATCH_MAX: usize = 1000;

/// The number of bytes a character takes in UTF-8.
pub open spec fn utf8_width(c: char) -> int {
    if (c as u32) < 0x80 {
        1
    } else if (c as u32) < 0x800 {
        2
    } else if (c as u32) < 0x10000 {
        3
    } else {
        4
    }
}

/// The length of a text in UTF-8 bytes (`str::len`).
pub open spec fn utf8_len(s: Seq<char>) -> int
    decreases s.len(),
{
    if s.len() == 0 {
        0
    } else {
        utf8_len(s.drop_last()) + utf8_width(s.last())
    }
}

/// The length of a text in UTF-8 bytes.
pub fn byte_len(s: &str) -> (r: u128)
    ensures
        r == utf8_len(s@),
{
    let cs = chars_of(s);
    let mut n: u128 = 0;
    let mut i: usize = 0;
    while i < cs.len()
        invariant
            i <= cs@.len(),
            cs@ == s@,
            n == utf8_len(cs@.take(i as int)),
            n <= 4 * i,
        decreases cs.len() - i,
    {
        assert(cs@.take(i + 1).drop_last() =~= cs@.take(i as int));
        let c = cs[i] as u32;
        n = n + if c < 0x80 {
            1
        } else if c < 0x800 {
            2
        } else if c < 0x10000 {
            3
        } else {
            4
        };
        i = i + 1;
    }
    assert(cs@.take(cs@.len() as int) =~= cs@);
    n
}

/// Creates a device after the form's checks: a name that is not blank and
/// at most 100 bytes long; then the rules of [`insert_device`].
pub fn create_device(db: &mut Database, data: &DeviceCreate) -> (r: Result<Device, AppError>)
    requires
        old(db).wf(),
    ensures
        final(db).wf(),
        trimmed(data.name@).len() == 0 ==> (r matches Err(e) && is_validation(e, "设备名称不能为空"@) && *final(db) == *old(db)),
        trimmed(data.name@).len() > 0 && utf8_len(data.name@) > 100 ==> (r matches Err(e) && is_validation(
            e,
            "设备名称不能超过100个字符"@,
        ) && *final(db) == *old(db)),
        trimmed(data.name@).len() > 0 && utf8_len(data.name@) <= 100 ==> exists|now: String| is_utc_stamp(now@) &&
            #[trigger] device_inserted(*old(db), *final(db), *data, now, r),
{
    let t = trim_str(data.name.as_str());
    if t.as_str().unicode_len() == 0 {
        return Err(AppError::validation("设备名称不能为空"));
    }
    if byte_len(data.name.as_str()) > 100 {
        return Err(AppError::validation("设备名称不能超过100个字符"));
    }
    let now = now_iso();
    crate::db::devices::insert_device_at(db, data, &now)
}

/// Creates a rack whose name is not blank (see [`insert_rack`]).
pub fn create_rack(db: &mut Database, data: &RackCreate) -> (r: Result<Rack, AppError>)
    requires
        old(db).wf(),
    ensures
        final(db).wf(),
        trimmed(data.name@).len() == 0 ==> (r matches Err(e) && is_validation(e, "机柜名称不能为空"@) && *final(db) == *old(db)),
        trimmed(data.name@).len() > 0 ==> match rack_create_failure(*old(db), *data) {
            Some(f) => r matches Err(e) && failure_is(e, f) && *final(db) == *old(db),
            None => r matches Ok(x) && (exists|now: String| is_utc_stamp(now@) && #[trigger] is_created_rack(x, *old(db), *data, now))
                && final(db).racks@ == old(db).racks@.push(x) && final(db).next_rack_id == old(db).next_rack_id + 1
                && same_but_racks(*old(db), *final(db)),
        },
{
    let t = trim_str(data.name.as_str());
    if t.as_str().unicode_len() == 0 {
        return Err(AppError::validation("机柜名称不能为空"));
    }
    let now = now_iso();
    crate::db::racks::insert_rack_at(db, data, &now)
}

/// Creates a room whose name is not blank (see [`insert_room`]).
pub fn create_room(db: &mut Database, data: &RoomCreate) -> (r: Result<Room, AppError>)
    requires
        old(db).wf(),
    ensures
        final(db).wf(),
        trimmed(data.name@).len() == 0 ==> (r matches Err(e) && is_validation(e, "机房名称不能为空"@) && *final(db) == *old(db)),
        trimmed(data.name@).len() > 0 ==> match room_create_failure(*old(db), *data) {
            Some(f) => r matches Err(e) && failure_is(e, f) && *final(db) == *old(db),
            None => r matches Ok(x) && (exists|now: String| is_utc_stamp(now@) && #[trigger] is_created_room(x, *old(db), *data, now))
                && final(db).rooms@ == old(db).rooms@.push(x) && final(db).next_room_id == old(db).next_room_id + 1
                && same_but_rooms(*old(db), *final(db)),
        },
{
    let t = trim_str(data.name.as_str());
    if t.as_str().unicode_len() == 0 {
        return Err(AppError::validation("机房名称不能为空"));
    }
    let now = now_iso();
    crate::db::rooms::insert_room_at(db, data, &now)
}

/// Creates a device model whose name is not blank (see
/// [`insert_device_model`]).
pub fn create_device_model(db: &mut Database, data: &DeviceModelCreate) -> (r: Result<DeviceModel, AppError>)
    requires
        old(db).wf(),
    ensures
        final(db).wf(),
        trimmed(data.name@).len() == 0 ==> (r matches Err(e) && is_validation(e, "型号名称不能为空"@) && *final(db) == *old(db)),
        trimmed(data.name@).len() > 0 ==> model_inserted(*old(db), *final(db), *data, r),
{
    let t = trim_str(data.name.as_str());
    if t.as_str().unicode_len() == 0 {
        return Err(AppError::validation("型号名称不能为空"));
    }
    insert_device_model(db, data)
}

/// `ids` with each id kept at its first place only.
pub open spec fn first_occurrences(ids: Seq<i32>) -> Seq<i32>
    decreases ids.len(),
{
    if ids.len() == 0 {
        ids
    } else if first_occurrences(ids.drop_last()).contains(ids.last()) {
        first_occurrences(ids.drop_last())
    } else {
        first_occurrences(ids.drop_last()).push(ids.last())
    }
}

fn dedup_ids(ids: &Vec<i32>) -> (r: Vec<i32>)
    ensures
        r@ == first_occurrences(ids@),
{
    let mut out: Vec<i32> = Vec::new();
    let mut i: usize = 0;
    while i < ids.len()
        invariant
            i <= ids@.len(),
            out@ == first_occurrences(ids@.take(i as int)),
        decreases ids.len() - i,
    {
        let id = ids[i];
        assert(ids@.take(i + 1).drop_last() =~= ids@.take(i as int));
        assert(ids@.take(i + 1).last() == id);
        let mut seen = false;
        let mut k: usize = 0;
        while k < out.len()
            invariant
                k <= out@.len(),
                seen == out@.take(k as int).contains(id),
            decreases out.len() - k,
        {
            let ghost t = out@.take(k as int);
            let ghost t2 = out@.take(k + 1);
            assert(t2 =~= t.push(out@[k as int]));
            proof {
                if out@[k as int] == id {
                    assert(t2[k as int] == id);
                } else {
                    if t2.contains(id) {
                        let j = choose|j: int| 0 <= j < t2.len() && t2[j] == id;
                        assert(t[j] == id);
                    }
                    if t.contains(id) {
                        let j = choose|j: int| 0 <= j < t.len() && t[j] == id;
                        assert(t2[j] == id);
                    }
                }
            }
            if out[k] == id {
                seen = true;
            }
            k = k + 1;
        }
        assert(out@.take(out@.len() as int) =~= out@);
        if !seen {
            out.push(id);
        }
        i = i + 1;
    }
    assert(ids@.take(ids@.len() as int) =~= ids@);
    out
}

/// The message for a batch above the limit.
pub open spec fn batch_too_large_message(n: int) -> Seq<char> {
    "单次批量删除不能超过 1000 个设备（当前 "@ + int_text(n) + " 个）"@
}

/// Moves the devices `ids` to the recycle bin, each id once (at its first
/// place): nothing for no ids; refused for more than 1000 distinct ids;
/// else the batch deletion of [`delete_devices_batch`].
pub fn delete_devices(db: &mut Database, ids: &Vec<i32>) -> (r: Result<DeleteBatchResult, AppError>)
    requires
        old(db).wf(),
    ensures
        final(db).wf(),
        first_occurrences(ids@).len() == 0 ==> (r matches Ok(res) && res.deleted == 0 && res.not_found@.len() == 0
            && *final(db) == *old(db)),
        first_occurrences(ids@).len() > DELETE_BATCH_MAX ==> (r matches Err(e) && is_validation(
            e,
            batch_too_large_message(first_occurrences(ids@).len() as int),
        ) && *final(db) == *old(db)),
        0 < first_occurrences(ids@).len() <= DELETE_BATCH_MAX ==> (r matches Ok(res) && exists|now: String| is_utc_stamp(now@) &&
            {
                &&& #[trigger] batch_seq(old(db).devices@, first_occurrences(ids@), now) == final(db).devices@
                &&& res.deleted == batch_deleted(old(db).devices@, first_occurrences(ids@), now)
                &&& res.not_found@ == batch_not_found(old(db).devices@, first_occurrences(ids@), now)
            }),
        crate::db::devices::same_but_devices(*old(db), *final(db)),
        final(db).next_device_id == old(db).next_device_id,
{
    let unique = dedup_ids(ids);
    if unique.len() == 0 {
        return Ok(DeleteBatchResult { deleted: 0, not_found: Vec::new() });
    }
    if unique.len() > 1000 {
        let n = uint_to_text(unique.len() as u64);
        let m = concat3("单次批量删除不能超过 1000 个设备（当前 ", n.as_str(), " 个）");
        return Err(AppError::validation(m.as_str()));
    }
    let (deleted, not_found) = delete_devices_batch(db, unique.as_slice());
    Ok(DeleteBatchResult { deleted, not_found })
}

/// Deletes for good a device in the recycle bin and returns its name:
/// refused for a missing device and for one in use.
pub fn purge_device(db: &mut Database, id: i32) -> (r: Result<String, AppError>)
    requires
        old(db).wf(),
    ensures
        final(db).wf(),
        device_at(*old(db), id) is None ==> (r matches Err(e) && is_not_found(e, "设备"@) && *final(db) == *old(db)),
        device_at(*old(db), id) is Some && is_active(device_at(*old(db), id)->0) ==> (r matches Err(e) && is_validation(
            e,
            "该设备不在回收站中，无法彻底删除"@,
        ) && *final(db) == *old(db)),
        device_at(*old(db), id) is Some && !is_active(device_at(*old(db), id)->0) ==> (r matches Ok(name) && name@
            == device_at(*old(db), id)->0.name@ && final(db).devices@ == old(db).devices@.remove(
            id_pos(device_ids(old(db).devices@), id),
        )),
        crate::db::devices::same_but_devices(*old(db), *final(db)),
{
    let dev = match get_device(db, id) {
        None => return Err(AppError::not_found("设备")),
        Some(d) => d,
    };
    if dev.deleted_at.is_none() {
        return Err(AppError::validation("该设备不在回收站中，无法彻底删除"));
    }
    let purged = crate::db::devices::purge_device(db, id);
    if !purged {
        return Err(AppError::not_found("设备"));
    }
    Ok(dev.name)
}

/// One page of the ledger with the number of devices that pass the filter
/// (see [`query_devices`]).
pub fn list_devices(db: &Database, q: &DeviceQuery) -> (r: DevicePage)
    requires
        db.wf(),
    ensures
        query_result(*db, *q, r.items@, r.total as int),
{
    let (items, total) = query_devices(db, q);
    DevicePage { items, total }
}

/// Whether logging is on, and where its files go.
pub struct LoggingConfig {
    pub enabled: bool,
    pub log_dir: String,
}

/// The logging switch as stored, with the log directory.
pub fn logging_config(db: &Database, log_dir: String) -> (r: LoggingConfig)
    requires
        db.wf(),
    ensures
        r.enabled == logging_on(*db),
        r.log_dir == log_dir,
{
    LoggingConfig { enabled: is_logging_enabled(db), log_dir }
}

/// The health answer: fine with no message, or the failure's text; with
/// the number of backups found.
pub fn db_health(check: &Result<(), AppError>, backup_count: i64) -> (r: DbHealth)
    ensures
        r.ok == (check is Ok),
        check is Ok ==> r.message@.len() == 0,
        check matches Err(e) ==> r.message@ == "["@ + code_name(e.code) + "] "@ + e.message@,
        r.backup_count == backup_count,
{
    match check {
        Ok(()) => DbHealth { ok: true, message: String::new(), backup_count },
        Err(e) => DbHealth { ok: false, message: e.to_text(), backup_count },
    }
}

/// The answer to a restore that has been staged: a restart applies it.
pub fn restore_scheduled() -> (r: RestoreResult)
    ensures
        r.restart_required,
        r.message@ == "恢复已准备完成：当前数据库已自动备份，请重启应用以生效。"@,
{
    RestoreResult { restart_required: true, message: owned("恢复已准备完成：当前数据库已自动备份，请重启应用以生效。") }
}

/// The answer of an automatic backup: skipped when one was taken within a
/// day, else done with the new file's name.
pub fn auto_backup_answer(file_name: Option<&str>) -> (r: RestoreResult)
    ensures
        !r.restart_required,
        file_name is None ==> r.message@ == "今日已自动备份，跳过"@,
        file_name matches Some(n) ==> r.message@ == "自动备份完成："@ + n@,
{
    match file_name {
        None => RestoreResult { restart_required: false, message: owned("今日已自动备份，跳过") },
        Some(n) => RestoreResult { restart_required: false, message: concat2("自动备份完成：", n) },
    }
}

} // verus!
