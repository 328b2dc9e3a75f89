use rackviz::db::{with_transaction, Database};
use rackviz::db::devices::{delete_device, delete_devices_batch, insert_device, list_deleted_devices,
    list_devices, query_devices, restore_device, soft_delete_device, update_device};
use rackviz::db::racks::{get_rack, insert_rack};
use rackviz::error::{AppError, ErrorCode};
use rackviz::models::{Device, DeviceCreate, DeviceQuery, DeviceUpdate, Patch, RackCreate};

fn setup_db() -> Database {
    Database::new()
}

/// Index of the device with `id` in the table.
fn position_of(db: &Database, id: i32) -> usize {
    db.devices.iter().position(|d| d.id == id).unwrap()
}

/// Stamps the deletion time of device `id` by hand.
fn set_deleted_at(db: &mut Database, id: i32, at: &str) {
    let k = position_of(db, id);
    db.devices[k].deleted_at = Some(at.to_string());
}

/// Appends a row as a bulk load would, past every rule (old data).
fn push_raw_device(db: &mut Database, name: &str, rack_id: Option<i32>, start_u: Option<i32>, end_u: Option<i32>) -> i32 {
    let id = db.next_device_id as i32;
    db.devices.push(Device {
        id,
        name: name.to_string(),
        device_model_id: None,
        rack_id,
        start_u,
        end_u,
        ip_addresses: String::new(),
        serial_no: String::new(),
        asset_no: String::new(),
        department: String::new(),
        owner: String::new(),
        function: String::new(),
        purchase_date: None,
        warranty_expire: None,
        status: "unconfigured".to_string(),
        power_watt: 0,
        height_u: 1,
        created_at: None,
        updated_at: None,
        deleted_at: None,
    });
    db.next_device_id += 1;
    id
}

fn create_test_device(db: &mut Database, name: &str, rack_id: Option<i32>) -> Device {
    if let Some(rid) = rack_id {
        // 确保机柜存在（满足外键约束）
        if get_rack(db, rid).is_none() {
            insert_rack(db, &RackCreate { name: format!("TestRack{}", rid), ..Default::default() }).unwrap();
        }
    }
    insert_device(db, &DeviceCreate {
        name: name.into(),
        rack_id,
        ..Default::default()
    }).unwrap()
}

#[test]
fn devices_test_list_empty() {
    let mut db = setup_db();
    assert!(list_devices(&db, None, None).is_empty());
}

#[test]
fn devices_test_create_and_list() {
    let mut db = setup_db();
    create_test_device(&mut db, "Web Server", None);
    let devices = list_devices(&db, None, None);
    assert_eq!(devices.len(), 1);
    assert_eq!(devices[0].name, "Web Server");
}

#[test]
fn test_filter_by_rack() {
    let mut db = setup_db();
    create_test_device(&mut db, "Dev1", Some(1));
    create_test_device(&mut db, "Dev2", Some(2));
    let devices = list_devices(&db, Some(1), None);
    assert_eq!(devices.len(), 1);
    assert_eq!(devices[0].name, "Dev1");
}

#[test]
fn test_search() {
    let mut db = setup_db();
    create_test_device(&mut db, "Core Router", None);
    create_test_device(&mut db, "Access Switch", None);
    let results = list_devices(&db, None, Some("Router".into()));
    assert_eq!(results.len(), 1);
    assert_eq!(results[0].name, "Core Router");
}

#[test]
fn test_search_like_wildcard_escaped() {
    // 回归：搜索 `100%` 不得匹配名称含 100 但不含 % 的设备（LIKE 通配符转义）
    let mut db = setup_db();
    create_test_device(&mut db, "Rate100", None);
    create_test_device(&mut db, "Rate100%Gold", None);
    // 转义后 `%100\%%` 只匹配字面 "100%"
    let results = list_devices(&db, None, Some("100%".into()));
    assert_eq!(results.len(), 1);
    assert_eq!(results[0].name, "Rate100%Gold");

    // `_` 同理：`A_C` 不应匹配 "ABC"
    let mut db2 = setup_db();
    create_test_device(&mut db2, "ABC", None);
    create_test_device(&mut db2, "A_C", None);
    let results2 = list_devices(&db2, None, Some("A_C".into()));
    assert_eq!(results2.len(), 1);
    assert_eq!(results2[0].name, "A_C");
}

#[test]
fn devices_test_delete() {
    let mut db = setup_db();
    create_test_device(&mut db, "ToDelete", None);
    assert!(delete_device(&mut db, 1));
    assert!(list_devices(&db, None, None).is_empty());
}

#[test]
fn test_delete_nonexistent() {
    let mut db = setup_db();
    assert!(!delete_device(&mut db, 999));
}

/// 上架一台设备（分配到机柜 1 的 U5）
fn mount_device(db: &mut Database, name: &str) -> Device {
    // 确保机柜 1 存在（满足外键约束）
    if get_rack(db, 1).is_none() {
        insert_rack(db, &RackCreate {
            name: "MountRack".into(),
            ..Default::default()
        }).unwrap();
    }
    insert_device(db, &DeviceCreate {
        name: name.into(),
        rack_id: Some(1),
        start_u: Some(5),
        end_u: Some(7),
        status: Some("offline".into()),
        ..Default::default()
    }).unwrap()
}

#[test]
fn test_insert_derives_height_from_u_span() {
    // 无型号设备：插入时高度由 start_u/end_u 区间推导
    let mut db = setup_db();
    let dev = mount_device(&mut db, "MultiU");
    assert_eq!(dev.start_u, Some(5));
    assert_eq!(dev.end_u, Some(7));
    assert_eq!(dev.height_u, 3);
}

#[test]
fn test_height_persists_after_unrack_and_rerack() {
    // 回归：P0 — 多U设备下架后重上架退化为 1U
    let mut db = setup_db();
    let dev = mount_device(&mut db, "MultiU");
    assert_eq!(dev.height_u, 3);

    // 1) 下架：清空机柜与 U 位，height_u 必须保留
    let unracked = update_device(&mut db, dev.id, &DeviceUpdate {
        rack_id: Patch::Clear,
        start_u: Patch::Clear,
        end_u: Patch::Clear,
        status: Patch::Assign("unconfigured".into()),
        ..Default::default()
    }).unwrap().unwrap();
    assert_eq!(unracked.rack_id, None);
    assert_eq!(unracked.height_u, 3, "下架后固有高度不得丢失");

    // 2) 重上架到新位置（只传机柜与 U 位，模拟拖拽）
    let racked = update_device(&mut db, dev.id, &DeviceUpdate {
        rack_id: Patch::Assign(1),
        start_u: Patch::Assign(2),
        end_u: Patch::Assign(4),
        status: Patch::Assign("offline".into()),
        ..Default::default()
    }).unwrap().unwrap();
    assert_eq!(racked.start_u, Some(2));
    assert_eq!(racked.end_u, Some(4));
    assert_eq!(racked.height_u, 3, "重上架后仍应为 3U");
}

#[test]
fn test_update_clear_racks_off_shelf() {
    // 回归：P0 — COALESCE 无法置空，导致"拖回资源池/未上架"失效
    let mut db = setup_db();
    let dev = mount_device(&mut db, "ToUnmount");
    assert_eq!(dev.rack_id, Some(1));

    // 模拟 RackView.handleStockDrop / DeviceDetailPanel「未上架」：显式传 null
    let updated = update_device(&mut db, dev.id, &DeviceUpdate {
        rack_id: Patch::Clear,
        start_u: Patch::Clear,
        end_u: Patch::Clear,
        ..Default::default()
    }).unwrap().unwrap();
    assert_eq!(updated.rack_id, None);
    assert_eq!(updated.start_u, None);
    assert_eq!(updated.end_u, None);
    assert_eq!(updated.status, "offline"); // 其它字段不受影响
}

#[test]
fn test_update_partial_keeps_other_columns() {
    let mut db = setup_db();
    let dev = mount_device(&mut db, "PartialUpdate");
    // 只更新 status（在线），rack/u 位必须保持不变
    let updated = update_device(&mut db, dev.id, &DeviceUpdate {
        status: Patch::Assign("online".into()),
        ..Default::default()
    }).unwrap().unwrap();
    assert_eq!(updated.status, "online");
    assert_eq!(updated.rack_id, Some(1));
    assert_eq!(updated.start_u, Some(5));
    assert_eq!(updated.end_u, Some(7));
}

#[test]
fn test_update_set_field_values() {
    let mut db = setup_db();
    let dev = mount_device(&mut db, "Rename");
    let updated = update_device(&mut db, dev.id, &DeviceUpdate {
        name: Patch::Assign("Renamed".into()),
        serial_no: Patch::Assign("SN-001".into()),
        ..Default::default()
    }).unwrap().unwrap();
    assert_eq!(updated.name, "Renamed");
    assert_eq!(updated.serial_no, "SN-001");
    assert_eq!(updated.rack_id, Some(1)); // 未提及字段保持
}

#[test]
fn test_update_clear_text_and_date() {
    let mut db = setup_db();
    let dev = mount_device(&mut db, "ClearFields");
    // 文本置空字符串 + 日期 Clear → NULL
    let updated = update_device(&mut db, dev.id, &DeviceUpdate {
        serial_no: Patch::Assign("".into()),
        purchase_date: Patch::Clear,
        ..Default::default()
    }).unwrap().unwrap();
    assert_eq!(updated.serial_no, "");
    assert_eq!(updated.purchase_date, None);
}

#[test]
fn test_update_unknown_id_returns_none() {
    let mut db = setup_db();
    let result = update_device(&mut db, 999, &DeviceUpdate {
        name: Patch::Assign("X".into()),
        ..Default::default()
    }).unwrap();
    assert!(result.is_none());
}

#[test]
fn test_update_date_invalid_format() {
    let mut db = setup_db();
    let dev = mount_device(&mut db, "BadDate");
    let result = update_device(&mut db, dev.id, &DeviceUpdate {
        purchase_date: Patch::Assign("2026-13-99".into()),
        ..Default::default()
    });
    assert!(result.is_err());
}

// ==================== N-01/N-02 query_devices ====================

#[test]
fn test_query_devices_excludes_deleted_by_default() {
    let mut db = setup_db();
    let dev = create_test_device(&mut db, "Alive", None);
    let gone = create_test_device(&mut db, "Gone", None);
    soft_delete_device(&mut db, gone.id);

    let (items, total) = query_devices(&db, &DeviceQuery::default());
    assert_eq!(total, 1);
    assert_eq!(items.len(), 1);
    assert_eq!(items[0].id, dev.id);

    // include_deleted = true 时全部返回
    let (items2, total2) = query_devices(&db, &DeviceQuery {
        include_deleted: Some(true),
        ..Default::default()
    });
    assert_eq!(total2, 2);
    assert_eq!(items2.len(), 2);
}

#[test]
fn test_query_devices_multi_field_search() {
    let mut db = setup_db();
    insert_device(&mut db, &DeviceCreate { name: "TOK-Name".into(), ..Default::default() }).unwrap();
    insert_device(&mut db, &DeviceCreate { name: "B".into(), ip_addresses: Some("10.99.0.1".into()), ..Default::default() }).unwrap();
    insert_device(&mut db, &DeviceCreate { name: "C".into(), serial_no: Some("TOK-SN".into()), ..Default::default() }).unwrap();
    insert_device(&mut db, &DeviceCreate { name: "D".into(), asset_no: Some("TOK-AS".into()), ..Default::default() }).unwrap();
    insert_device(&mut db, &DeviceCreate { name: "Nope".into(), ..Default::default() }).unwrap();

    // name / serial_no / asset_no 三字段命中（N-10 后 IP 需为合法格式，IP 命中单独断言）
    let (items, total) = query_devices(&db, &DeviceQuery {
        search: Some("TOK".into()),
        ..Default::default()
    });
    assert_eq!(total, 3);
    assert_eq!(items.len(), 3);

    // ip_addresses 字段命中
    let (items_ip, total_ip) = query_devices(&db, &DeviceQuery {
        search: Some("10.99".into()),
        ..Default::default()
    });
    assert_eq!(total_ip, 1);
    assert_eq!(items_ip.len(), 1);
    assert_eq!(items_ip[0].name, "B");
}

// ==================== B1 全局搜索（五字段含 owner） ====================

/// B1：`query_devices` 搜索命中 owner（责任人）字段
#[test]
fn test_query_devices_owner_search() {
    let mut db = setup_db();
    insert_device(&mut db, &DeviceCreate { name: "Web-01".into(), owner: Some("张三".into()), ..Default::default() }).unwrap();
    insert_device(&mut db, &DeviceCreate { name: "Web-02".into(), owner: Some("李四".into()), ..Default::default() }).unwrap();

    let (items, total) = query_devices(&db, &DeviceQuery {
        search: Some("张三".into()),
        ..Default::default()
    });
    assert_eq!(total, 1);
    assert_eq!(items.len(), 1);
    assert_eq!(items[0].name, "Web-01");
}

/// B1：`list_devices`（机柜视图搜索）与 `query_devices` 搜索口径一致——
/// 同为五字段（name / ip_addresses / serial_no / asset_no / owner）。
#[test]
fn test_list_devices_multi_field_search_including_owner() {
    let mut db = setup_db();
    insert_device(&mut db, &DeviceCreate { name: "A".into(), owner: Some("王五".into()), ..Default::default() }).unwrap();
    insert_device(&mut db, &DeviceCreate { name: "B".into(), ip_addresses: Some("10.0.0.8".into()), ..Default::default() }).unwrap();
    insert_device(&mut db, &DeviceCreate { name: "C".into(), serial_no: Some("SN-LIST".into()), ..Default::default() }).unwrap();
    insert_device(&mut db, &DeviceCreate { name: "D".into(), asset_no: Some("AS-LIST".into()), ..Default::default() }).unwrap();
    insert_device(&mut db, &DeviceCreate { name: "Nope".into(), ..Default::default() }).unwrap();

    // owner 命中
    let hit_owner = list_devices(&db, None, Some("王五".into()));
    assert_eq!(hit_owner.len(), 1);
    assert_eq!(hit_owner[0].name, "A");
    // IP / SN / 资产编号命中
    assert_eq!(list_devices(&db, None, Some("10.0.0".into())).len(), 1);
    assert_eq!(list_devices(&db, None, Some("SN-LIST".into())).len(), 1);
    assert_eq!(list_devices(&db, None, Some("AS-LIST".into())).len(), 1);
    // 无关词不命中
    assert!(list_devices(&db, None, Some("NoMatch".into())).is_empty());
}

#[test]
fn test_query_devices_sort_whitelist() {
    let mut db = setup_db();
    insert_device(&mut db, &DeviceCreate { name: "Zeta".into(), ..Default::default() }).unwrap();
    insert_device(&mut db, &DeviceCreate { name: "Alpha".into(), ..Default::default() }).unwrap();

    let (items, total) = query_devices(&db, &DeviceQuery {
        sort_field: Some("name".into()),
        sort_order: Some("desc".into()),
        ..Default::default()
    });
    assert_eq!(total, 2);
    assert_eq!(items[0].name, "Zeta");
    assert_eq!(items[1].name, "Alpha");

    // 非白名单字段回退 name（不得报错、不得注入）
    let (items_fallback, _) = query_devices(&db, &DeviceQuery {
        sort_field: Some("name; DROP TABLE devices".into()),
        sort_order: Some("desc".into()),
        ..Default::default()
    });
    assert_eq!(items_fallback.len(), 2);
    assert_eq!(items_fallback[0].name, "Zeta");
}

#[test]
fn test_query_devices_pagination_and_filter() {
    let mut db = setup_db();
    for i in 1..=5 {
        create_test_device(&mut db, &format!("Dev{}", i), Some(1));
    }
    create_test_device(&mut db, "Other", Some(2));

    // 机柜过滤 + 分页
    let (page1, total) = query_devices(&db, &DeviceQuery {
        rack_id: Some(1),
        limit: Some(2),
        offset: Some(0),
        ..Default::default()
    });
    assert_eq!(total, 5);
    assert_eq!(page1.len(), 2);

    let (page2, _) = query_devices(&db, &DeviceQuery {
        rack_id: Some(1),
        limit: Some(2),
        offset: Some(2),
        ..Default::default()
    });
    assert_eq!(page2.len(), 2);
    // 两页不重叠
    assert_ne!(page1[0].id, page2[0].id);
}

// ==================== N-09 soft delete / restore ====================

#[test]
fn test_soft_delete_hides_and_supports_recreate_same_serial() {
    let mut db = setup_db();
    let first = insert_device(&mut db, &DeviceCreate {
        name: "Old".into(),
        serial_no: Some("SN-X".into()),
        ..Default::default()
    }).unwrap();

    assert!(soft_delete_device(&mut db, first.id));
    // 默认不可见
    assert!(list_devices(&db, None, None).is_empty());
    // 回收站可见
    let deleted = list_deleted_devices(&db, None);
    assert_eq!(deleted.len(), 1);
    assert_eq!(deleted[0].id, first.id);

    // 同序列号可重建（部分唯一索引生效）
    let second = insert_device(&mut db, &DeviceCreate {
        name: "New".into(),
        serial_no: Some("SN-X".into()),
        ..Default::default()
    }).unwrap();
    assert_ne!(first.id, second.id);

    // active 之间仍强唯一
    let dup = insert_device(&mut db, &DeviceCreate {
        name: "Dup".into(),
        serial_no: Some("SN-X".into()),
        ..Default::default()
    });
    assert!(dup.is_err(), "active 重复序列号必须被拒");
}

#[test]
fn test_soft_delete_device_idempotent_returns_false() {
    let mut db = setup_db();
    let dev = create_test_device(&mut db, "Once", None);
    assert!(soft_delete_device(&mut db, dev.id));
    // 再次软删：已删（deleted_at 非 NULL）→ 0 行
    assert!(!soft_delete_device(&mut db, dev.id));
    // 不存在的 id
    assert!(!soft_delete_device(&mut db, 9999));
}

#[test]
fn test_restore_device_success() {
    let mut db = setup_db();
    let dev = create_test_device(&mut db, "RestoreMe", None);
    soft_delete_device(&mut db, dev.id);
    let restored = restore_device(&mut db, dev.id).unwrap();
    assert_eq!(restored.id, dev.id);
    assert!(restored.deleted_at.is_none());
    assert_eq!(list_devices(&db, None, None).len(), 1);
}

#[test]
fn test_restore_conflict_returns_conflict() {
    let mut db = setup_db();
    let old = insert_device(&mut db, &DeviceCreate {
        name: "Old".into(),
        serial_no: Some("SN-C".into()),
        ..Default::default()
    }).unwrap();
    soft_delete_device(&mut db, old.id);

    // 软删期间用同序列号建了新设备
    insert_device(&mut db, &DeviceCreate {
        name: "New".into(),
        serial_no: Some("SN-C".into()),
        ..Default::default()
    }).unwrap();

    let err = restore_device(&mut db, old.id).unwrap_err();
    match err {
        AppError { code: ErrorCode::Conflict, .. } => {}
        other => panic!("期望 Conflict，实际: {:?}", other),
    }
}

#[test]
fn test_restore_over_30_days_rejected() {
    let mut db = setup_db();
    let dev = create_test_device(&mut db, "TooOld", None);
    soft_delete_device(&mut db, dev.id);

    // 将 deleted_at 回拨到 31 天前
    let past = (chrono::Utc::now() - chrono::Duration::days(31))
        .format("%Y-%m-%dT%H:%M:%SZ")
        .to_string();
    set_deleted_at(&mut db, dev.id, &past);

    let err = restore_device(&mut db, dev.id);
    assert!(err.is_err(), "超过 30 天必须拒绝恢复");
}

#[test]
fn test_restore_active_device_rejected() {
    let mut db = setup_db();
    let dev = create_test_device(&mut db, "Active", None);
    // 未软删直接恢复 → 拒绝
    assert!(restore_device(&mut db, dev.id).is_err());
}

// ==================== N-20 delete_devices_batch ====================

#[test]
fn test_delete_devices_batch_counts_and_not_found() {
    let mut db = setup_db();
    let a = create_test_device(&mut db, "A", None);
    let b = create_test_device(&mut db, "B", None);

    let (deleted, not_found) = delete_devices_batch(&mut db, &[a.id, b.id, 9999]);
    assert_eq!(deleted, 2);
    assert_eq!(not_found, vec![9999]);
    assert!(list_devices(&db, None, None).is_empty());
    assert_eq!(list_deleted_devices(&db, None).len(), 2);
}

#[test]
fn test_delete_devices_batch_already_deleted_goes_to_not_found() {
    let mut db = setup_db();
    let a = create_test_device(&mut db, "A", None);
    soft_delete_device(&mut db, a.id);

    let (deleted, not_found) = delete_devices_batch(&mut db, &[a.id]);
    assert_eq!(deleted, 0);
    assert_eq!(not_found, vec![a.id]);
}

// ==================== Stage 2A 对抗性验证（QA 补充） ====================

/// 点 2②：`query_devices` 搜索对 `%` / `_` / `\` 三个 LIKE 通配符**全部**转义，
/// 含这些字符的设备名不会误命中「不含该字面字符」的记录。
#[test]
fn test_query_devices_escapes_all_like_wildcards() {
    // 字面 `%`
    let mut db = setup_db();
    let p = insert_device(&mut db, &DeviceCreate { name: "HasPercent%Here".into(), ..Default::default() }).unwrap();
    insert_device(&mut db, &DeviceCreate { name: "HasPercentXHere".into(), ..Default::default() }).unwrap();
    let (items, total) = query_devices(&db, &DeviceQuery { search: Some("%".into()), ..Default::default() });
    assert_eq!(total, 1, "搜索 % 只应命中含字面 % 的记录（不得当通配符）");
    assert_eq!(items[0].id, p.id);

    // 字面 `_`
    let mut db2 = setup_db();
    let u = insert_device(&mut db2, &DeviceCreate { name: "A_C".into(), ..Default::default() }).unwrap();
    insert_device(&mut db2, &DeviceCreate { name: "ABC".into(), ..Default::default() }).unwrap();
    let (items2, total2) = query_devices(&db2, &DeviceQuery { search: Some("_".into()), ..Default::default() });
    assert_eq!(total2, 1, "搜索 _ 只应命中含字面 _ 的记录");
    assert_eq!(items2[0].id, u.id);

    // 字面 `\`（转义顺序若写反会在此暴露）
    let mut db3 = setup_db();
    let b = insert_device(&mut db3, &DeviceCreate { name: "back\\slash".into(), ..Default::default() }).unwrap();
    insert_device(&mut db3, &DeviceCreate { name: "backslash".into(), ..Default::default() }).unwrap();
    let (items3, total3) = query_devices(&db3, &DeviceQuery { search: Some("\\".into()), ..Default::default() });
    assert_eq!(total3, 1, "搜索 \\ 只应命中含字面反斜杠的记录");
    assert_eq!(items3[0].id, b.id);
}

/// 点 2①：`sort_order` 同样仅接受白名单；非法值安全降级为 ASC，且不破坏表结构。
#[test]
fn test_query_devices_sort_order_injection_safe() {
    let mut db = setup_db();
    insert_device(&mut db, &DeviceCreate { name: "Zeta".into(), ..Default::default() }).unwrap();
    insert_device(&mut db, &DeviceCreate { name: "Alpha".into(), ..Default::default() }).unwrap();

    let (items, _) = query_devices(&db, &DeviceQuery {
        sort_field: Some("name".into()),
        sort_order: Some("desc; DROP TABLE devices".into()),
        ..Default::default()
    });
    // 非法 sort_order → 降级 ASC
    assert_eq!(items[0].name, "Alpha");
    assert_eq!(items[1].name, "Zeta");
    // 表仍完好（注入未生效）
    assert_eq!(list_devices(&db, None, None).len(), 2);
}

/// 点 2③：`include_deleted=true` 只在结果中多出软删记录，不外泄其它状态；
/// 返回集合恰好 = {active} ∪ {deleted}。
#[test]
fn test_query_devices_include_deleted_only_adds_deleted() {
    let mut db = setup_db();
    let a = create_test_device(&mut db, "A", None);
    let b = create_test_device(&mut db, "B", None);
    let d = create_test_device(&mut db, "D", None);
    soft_delete_device(&mut db, d.id);

    let (active, t0) = query_devices(&db, &DeviceQuery::default());
    assert_eq!(t0, 2);
    let mut active_ids: Vec<i32> = active.iter().map(|x| x.id).collect();
    active_ids.sort();
    assert_eq!(active_ids, vec![a.id, b.id]);
    assert!(active.iter().all(|x| x.deleted_at.is_none()), "默认查询不得返回任何已删记录");

    let (all, t1) = query_devices(&db, &DeviceQuery { include_deleted: Some(true), ..Default::default() });
    assert_eq!(t1, 3);
    let mut all_ids: Vec<i32> = all.iter().map(|x| x.id).collect();
    all_ids.sort();
    assert_eq!(all_ids, vec![a.id, b.id, d.id]);
    // 恰好一条处于软删状态：既没漏记录，也没把 active 错标为删除
    assert_eq!(all.iter().filter(|x| x.deleted_at.is_some()).count(), 1);
}

/// 点 2④：`total` 与 `items` 口径一致 —— 同一 WHERE，`total` 忽略 LIMIT/OFFSET。
#[test]
fn test_query_devices_total_consistent_with_items_where() {
    let mut db = setup_db();
    insert_device(&mut db, &DeviceCreate { name: "Multi-1".into(), ..Default::default() }).unwrap();
    insert_device(&mut db, &DeviceCreate { name: "Multi-2".into(), ..Default::default() }).unwrap();
    insert_device(&mut db, &DeviceCreate { name: "Multi-3".into(), ..Default::default() }).unwrap();

    // 搜索命中 3 条，但只取 1 条：total 仍须为 3
    let (items, total) = query_devices(&db, &DeviceQuery {
        search: Some("Multi".into()),
        limit: Some(1),
        offset: Some(0),
        ..Default::default()
    });
    assert_eq!(items.len(), 1);
    assert_eq!(total, 3, "total 应与 items 同 WHERE，不受 LIMIT 影响");
}

/// 点 3①：恢复窗口边界 —— 窗口内（30 天减 5 秒）应可恢复；31 天拒绝。
///
/// 注：秒级时间戳下「正好 30 天」**不可构造** —— `%Y-%m-%dT%H:%M:%SZ` 向下截断会使存量值
/// 比「30 天前」更早，叠加 `restore_device` 内取的更晚 `now`，`age` 必然 > 30 天。
/// 故 allowed 侧用**明确落在窗口内**的「30 天减 5 秒」代表（5 秒余量足以覆盖截断 ≤1 秒
/// 与测试执行间隔）；拒绝侧由 `test_restore_boundary_just_over_30_days_should_reject`
/// 与 `test_restore_boundary_31_days_rejected` 覆盖。
#[test]
fn test_restore_boundary_within_30_days_allowed() {
    let mut db = setup_db();
    let dev = create_test_device(&mut db, "Within30", None);
    soft_delete_device(&mut db, dev.id);
    let past = (chrono::Utc::now() - chrono::Duration::days(30) + chrono::Duration::seconds(5))
        .format("%Y-%m-%dT%H:%M:%SZ")
        .to_string();
    set_deleted_at(&mut db, dev.id, &past);
    let restored = restore_device(&mut db, dev.id).expect("30 天减 5 秒仍在窗口内，应可恢复");
    assert!(restored.deleted_at.is_none());
}

#[test]
fn test_restore_boundary_31_days_rejected() {
    let mut db = setup_db();
    let dev = create_test_device(&mut db, "Day31", None);
    soft_delete_device(&mut db, dev.id);
    let past = (chrono::Utc::now() - chrono::Duration::days(31))
        .format("%Y-%m-%dT%H:%M:%SZ")
        .to_string();
    set_deleted_at(&mut db, dev.id, &past);
    assert!(restore_device(&mut db, dev.id).is_err(), "超过 30 天必须拒绝恢复");
}

/// 点 3①（边界）：删除时间 = 30 天 + 1 小时 → 严格超出 30 天窗口，必须拒绝。
///
/// 设计口径为「超过 30 天拒绝恢复」（§4.3 / §9 Q6）。`restore_device` 已改为
/// 按**完整时长**判定：`Utc::now().signed_duration_since(deleted_at) >
/// chrono::Duration::days(30)`。因此「30 天零 1 秒」即拒绝，而**正好 30 天**放行
/// （见 `test_restore_boundary_exactly_30_days_allowed`）。
#[test]
fn test_restore_boundary_just_over_30_days_should_reject() {
    let mut db = setup_db();
    let dev = create_test_device(&mut db, "OverByHour", None);
    soft_delete_device(&mut db, dev.id);
    let past = (chrono::Utc::now() - chrono::Duration::days(30) - chrono::Duration::hours(1))
        .format("%Y-%m-%dT%H:%M:%SZ")
        .to_string();
    set_deleted_at(&mut db, dev.id, &past);
    assert!(
        restore_device(&mut db, dev.id).is_err(),
        "删除已超过 30 天窗口，按设计应拒绝恢复"
    );
}

/// 点 3②：恢复冲突预检必须覆盖**第二个**唯一键（asset_no），不能只查 serial_no。
#[test]
fn test_restore_conflict_on_asset_no_rejected() {
    let mut db = setup_db();
    let old = insert_device(&mut db, &DeviceCreate {
        name: "OldAsset".into(),
        asset_no: Some("AS-C".into()),
        ..Default::default()
    }).unwrap();
    soft_delete_device(&mut db, old.id);

    // 软删期间用同资产编号建了新设备（serial 不同，仅 asset 冲突）
    insert_device(&mut db, &DeviceCreate {
        name: "NewAsset".into(),
        asset_no: Some("AS-C".into()),
        ..Default::default()
    }).unwrap();

    let err = restore_device(&mut db, old.id).unwrap_err();
    match err {
        AppError { code: ErrorCode::Conflict, .. } => {}
        other => panic!("期望 asset_no 冲突返回 Conflict，实际: {:?}", other),
    }
}

/// 点 3③：恢复成功后 `deleted_at` 置空、`updated_at` 刷新为当前时刻。
#[test]
fn test_restore_refreshes_updated_at_and_clears_deleted_at() {
    let mut db = setup_db();
    let dev = create_test_device(&mut db, "RestoreStamp", None);
    soft_delete_device(&mut db, dev.id);
    // deleted_at 保持「刚删」（在窗口内）；仅把 updated_at 拨到历史值，观察是否刷新
    let k = position_of(&db, dev.id);
    db.devices[k].updated_at = Some("2000-01-01T00:00:00Z".to_string());

    let restored = restore_device(&mut db, dev.id).unwrap();
    assert!(restored.deleted_at.is_none(), "恢复后 deleted_at 必须置空");
    assert_ne!(
        restored.updated_at.as_deref(),
        Some("2000-01-01T00:00:00Z"),
        "恢复后 updated_at 必须刷新为当前时刻"
    );
    assert!(restored.updated_at.is_some());
}

/// 点 4③（关键）：批量软删在**同一事务**内执行；任一环节失败 → 整体 ROLLBACK，不留部分删除。
/// 构造：同一事务内先批量软删 2 台，再触发唯一约束冲突使事务失败。
#[test]
fn test_delete_devices_batch_atomic_rollback() {
    let mut db = setup_db();
    let a = create_test_device(&mut db, "AtomicA", None);
    let b = create_test_device(&mut db, "AtomicB", None);
    // 占位 active 设备，持有 SN-DUP
    insert_device(&mut db, &DeviceCreate {
        name: "Holder".into(),
        serial_no: Some("SN-DUP".into()),
        ..Default::default()
    }).unwrap();

    let outcome: Result<(), AppError> = with_transaction(&mut db, |c: &mut Database| {
        let (deleted, not_found) = delete_devices_batch(c, &[a.id, b.id]);
        assert_eq!(deleted, 2);
        assert!(not_found.is_empty());
        // 同一事务内制造失败：插入重复序列号 → 部分唯一索引拒绝
        let _ = insert_device(c, &DeviceCreate {
            name: "Dup".into(),
            serial_no: Some("SN-DUP".into()),
            ..Default::default()
        })?;
        Ok(())
    });
    assert!(outcome.is_err(), "事务内冲突应使整体失败");

    // 原子性：a、b 均不得被软删（不留部分删除）
    assert_eq!(
        list_devices(&db, None, None).len(),
        3,
        "回滚后 3 台在用设备均应保留"
    );
    assert!(
        list_deleted_devices(&db, None).is_empty(),
        "回滚后回收站必须为空（不得留下部分删除）"
    );
}

// ===================== N-10 输入验证 =====================

/// 建 10U 机柜并返回其 id
fn create_test_rack_10u(db: &mut Database, name: &str) -> i32 {
    insert_rack(db, &RackCreate {
        name: name.into(),
        height_u: Some(10),
        ..Default::default()
    })
    .unwrap()
    .id
}

fn assert_validation(err: AppError, hint: &str) {
    assert!(
        err.message.contains(hint),
        "错误消息应含「{hint}」，实际：{}",
        err.message
    );
}

#[test]
fn test_n10_u_range_rejected() {
    let mut db = setup_db();
    // start > end
    let err = insert_device(&mut db, &DeviceCreate {
        name: "Bad-Range".into(),
        start_u: Some(5),
        end_u: Some(3),
        ..Default::default()
    }).unwrap_err();
    assert_validation(err, "结束U位(3)不能小于起始U位(5)");
    // U 位 < 1
    let err = insert_device(&mut db, &DeviceCreate {
        name: "Bad-Zero".into(),
        start_u: Some(0),
        end_u: Some(2),
        ..Default::default()
    }).unwrap_err();
    assert_validation(err, "U 位(0)无效");
    // update 路径同样拦截
    let dev = insert_device(&mut db, &DeviceCreate { name: "OK".into(), ..Default::default() }).unwrap();
    let err = update_device(&mut db, dev.id, &DeviceUpdate {
        start_u: Patch::Assign(9),
        end_u: Patch::Assign(4),
        ..Default::default()
    }).unwrap_err();
    assert_validation(err, "结束U位(4)不能小于起始U位(9)");
}

#[test]
fn test_n10_u_boundary_rejected() {
    let mut db = setup_db();
    let rid = create_test_rack_10u(&mut db, "R42");
    // end 超出机柜高度
    let err = insert_device(&mut db, &DeviceCreate {
        name: "Too-Tall".into(),
        rack_id: Some(rid),
        start_u: Some(9),
        end_u: Some(11),
        ..Default::default()
    }).unwrap_err();
    assert_validation(err, "超出机柜「R42」高度(10U)");
    // 边界内合法
    insert_device(&mut db, &DeviceCreate {
        name: "Edge-OK".into(),
        rack_id: Some(rid),
        start_u: Some(9),
        end_u: Some(10),
        ..Default::default()
    }).unwrap();
}

#[test]
fn test_n10_u_overlap_insert_rejected() {
    let mut db = setup_db();
    let rid = create_test_rack_10u(&mut db, "R10");
    insert_device(&mut db, &DeviceCreate {
        name: "A".into(), rack_id: Some(rid),
        start_u: Some(1), end_u: Some(4), ..Default::default()
    }).unwrap();
    // 与 A(1-4) 相交：区间包含/部分重叠均拒绝
    for (s, e) in [(3, 6), (4, 4), (1, 10)] {
        let err = insert_device(&mut db, &DeviceCreate {
            name: format!("B-{s}-{e}"),
            rack_id: Some(rid),
            start_u: Some(s),
            end_u: Some(e),
            ..Default::default()
        }).unwrap_err();
        assert_validation(err, "重叠");
    }
    // 相邻（5-8 紧接 1-4）合法
    insert_device(&mut db, &DeviceCreate {
        name: "Adjacent".into(), rack_id: Some(rid),
        start_u: Some(5), end_u: Some(8), ..Default::default()
    }).unwrap();
    // 不同机柜同 U 位合法
    let rid2 = create_test_rack_10u(&mut db, "R10-B");
    insert_device(&mut db, &DeviceCreate {
        name: "OtherRack".into(), rack_id: Some(rid2),
        start_u: Some(1), end_u: Some(4), ..Default::default()
    }).unwrap();
}

#[test]
fn test_n10_u_overlap_update_excludes_self() {
    let mut db = setup_db();
    let rid = create_test_rack_10u(&mut db, "R10");
    let a = insert_device(&mut db, &DeviceCreate {
        name: "A".into(), rack_id: Some(rid),
        start_u: Some(1), end_u: Some(4), ..Default::default()
    }).unwrap();
    // 自身移动（新区间与旧区间相交）不构成自重叠 → 成功
    let moved = update_device(&mut db, a.id, &DeviceUpdate {
        start_u: Patch::Assign(2),
        end_u: Patch::Assign(5),
        ..Default::default()
    }).unwrap().unwrap();
    assert_eq!((moved.start_u, moved.end_u), (Some(2), Some(5)));
    // 高度自动同步为区间高度
    assert_eq!(moved.height_u, 4);
    // 再移到与"其它设备"重叠处 → conflict（移 end 到 7：eff 2-7 与 B(7-8) 相交）
    insert_device(&mut db, &DeviceCreate {
        name: "B".into(), rack_id: Some(rid),
        start_u: Some(7), end_u: Some(8), ..Default::default()
    }).unwrap();
    let err = update_device(&mut db, a.id, &DeviceUpdate {
        end_u: Patch::Assign(7),
        ..Default::default()
    }).unwrap_err();
    assert!(err.message.contains("重叠"), "应报重叠，实际：{}", err.message);
}

#[test]
fn test_n10_u_overlap_soft_deleted_ignored() {
    let mut db = setup_db();
    let rid = create_test_rack_10u(&mut db, "R10");
    let a = insert_device(&mut db, &DeviceCreate {
        name: "A".into(), rack_id: Some(rid),
        start_u: Some(1), end_u: Some(4), ..Default::default()
    }).unwrap();
    delete_device(&mut db, a.id);
    // A 软删后其 U 位可复用（v5 回收站语义：软删退出占用）
    insert_device(&mut db, &DeviceCreate {
        name: "Reuse".into(), rack_id: Some(rid),
        start_u: Some(1), end_u: Some(4), ..Default::default()
    }).unwrap();
}

#[test]
fn test_n10_update_non_space_fields_not_blocked_by_legacy_overlap() {
    // 历史脏数据（直接 SQL 造重叠）编辑名称/状态等非空间字段不受阻；
    // 只有动 U 位时才要求解决冲突
    let mut db = setup_db();
    let rid = create_test_rack_10u(&mut db, "R10");
    insert_device(&mut db, &DeviceCreate {
        name: "A".into(), rack_id: Some(rid),
        start_u: Some(1), end_u: Some(4), ..Default::default()
    }).unwrap();
    // 直接 SQL 构造历史脏数据（绕过 N-10 校验，模拟校验上线前的存量重叠）
    let b_id: i32 = push_raw_device(&mut db, "B", Some(rid), Some(2), Some(3));
    // 非空间编辑 → 成功
    let renamed = update_device(&mut db, b_id, &DeviceUpdate {
        name: Patch::Assign("B-Renamed".into()),
        status: Patch::Assign("online".into()),
        ..Default::default()
    }).unwrap().unwrap();
    assert_eq!(renamed.name, "B-Renamed");
    // 动 U 位 → 被 overlap 拦截
    let err = update_device(&mut db, b_id, &DeviceUpdate {
        end_u: Patch::Assign(5),
        ..Default::default()
    }).unwrap_err();
    assert!(err.message.contains("重叠"), "应报重叠，实际：{}", err.message);
}

#[test]
fn test_n10_ip_addresses() {
    let mut db = setup_db();
    // 合法：IPv4 / 多 IP 混合分隔符 / IPv6 / 空白串
    for ip in ["10.0.0.1", "10.0.0.1,10.0.0.2", "10.0.0.1； 192.168.1.1", "::1", "2001:db8::1", "   "] {
        insert_device(&mut db, &DeviceCreate {
            name: format!("IP-OK-{ip}"),
            ip_addresses: Some(ip.into()),
            ..Default::default()
        }).unwrap();
    }
    // 非法：越界段 / 非数字 / 前导零 / 段数不对
    for ip in ["256.1.1.1", "1.2.3.4.5", "abc.def.ghi.jkl", "01.2.3.4", "1.2.3"] {
        let err = insert_device(&mut db, &DeviceCreate {
            name: format!("IP-Bad-{ip}"),
            ip_addresses: Some(ip.into()),
            ..Default::default()
        }).unwrap_err();
        assert_validation(err, "IP 地址格式不正确");
    }
    // update：Set 新值校验；Clear（置 NULL）放行
    let dev = insert_device(&mut db, &DeviceCreate {
        name: "Upd".into(),
        ip_addresses: Some("10.0.0.9".into()),
        ..Default::default()
    }).unwrap();
    let err = update_device(&mut db, dev.id, &DeviceUpdate {
        ip_addresses: Patch::Assign("999.0.0.1".into()),
        ..Default::default()
    }).unwrap_err();
    assert_validation(err, "IP 地址格式不正确");
    update_device(&mut db, dev.id, &DeviceUpdate {
        ip_addresses: Patch::Clear,
        ..Default::default()
    }).unwrap().unwrap();
}

#[test]
fn test_n10_status_enum() {
    let mut db = setup_db();
    // 合法：白名单三值（None → 默认 unconfigured）
    for st in ["online", "offline", "unconfigured"] {
        insert_device(&mut db, &DeviceCreate {
            name: format!("ST-{st}"),
            status: Some(st.into()),
            ..Default::default()
        }).unwrap();
    }
    // 非法：未知值 / 空串
    for st in ["running", ""] {
        let err = insert_device(&mut db, &DeviceCreate {
            name: format!("ST-Bad-{st}"),
            status: Some(st.into()),
            ..Default::default()
        }).unwrap_err();
        assert_validation(err, "设备状态取值非法");
    }
    // update：Set 非法值拦截
    let dev = insert_device(&mut db, &DeviceCreate { name: "Upd-ST".into(), ..Default::default() }).unwrap();
    let err = update_device(&mut db, dev.id, &DeviceUpdate {
        status: Patch::Assign("maintenance".into()),
        ..Default::default()
    }).unwrap_err();
    assert_validation(err, "设备状态取值非法");
}

#[test]
fn timestamps_are_utc_seconds() {
    let mut db = setup_db();
    let d = create_test_device(&mut db, "Clocked", None);
    let t = d.created_at.clone().unwrap();
    let b: Vec<char> = t.chars().collect();
    assert_eq!(b.len(), 20, "{}", t);
    for (i, c) in b.iter().enumerate() {
        match i {
            4 | 7 => assert_eq!(*c, '-'),
            10 => assert_eq!(*c, 'T'),
            13 | 16 => assert_eq!(*c, ':'),
            19 => assert_eq!(*c, 'Z'),
            _ => assert!(c.is_ascii_digit()),
        }
    }
    assert_eq!(d.updated_at, d.created_at);
}

#[test]
fn listing_and_query_select_the_same_devices() {
    let mut db = setup_db();
    create_test_device(&mut db, "Zeta Router", Some(1));
    create_test_device(&mut db, "Alpha Router", Some(1));
    create_test_device(&mut db, "Beta Switch", Some(1));
    create_test_device(&mut db, "Gamma Router", Some(2));
    let gone = create_test_device(&mut db, "Delta Router", Some(1));
    soft_delete_device(&mut db, gone.id);
    let listed = list_devices(&db, Some(1), Some("Router".into()));
    let names: Vec<&str> = listed.iter().map(|d| d.name.as_str()).collect();
    assert_eq!(names, vec!["Alpha Router", "Zeta Router"]);
    let (items, total) = query_devices(&db, &DeviceQuery {
        rack_id: Some(1),
        search: Some("Router".into()),
        ..Default::default()
    });
    assert_eq!(total, 2);
    let qnames: Vec<&str> = items.iter().map(|d| d.name.as_str()).collect();
    assert_eq!(qnames, names);
}
