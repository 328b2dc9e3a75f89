use rackviz::db::device_models::{find_or_create_model, get_device_model, insert_device_model, list_device_models};
use rackviz::db::devices::{insert_device, list_devices, soft_delete_device};
use rackviz::db::racks::{insert_rack, list_racks};
use rackviz::db::rooms::list_rooms;
use rackviz::db::Database;
use rackviz::excel::Cell;
use rackviz::export::{export_devices_data, export_racks, ledger_headers, LedgerRow};
use rackviz::import::{import_devices_excel, import_devices_excel_at, read_sheet, MAX_IMPORT_ROWS};
use rackviz::models::{DeviceCreate, DeviceModelCreate, ImportOptions, RackCreate};

fn setup_db() -> Database {
    Database::new()
}

fn text(s: &str) -> Cell {
    Cell::Text(s.to_string())
}

fn header16() -> Vec<Cell> {
    [
        "设备名称", "型号", "机房", "机柜", "位置(U)", "IP地址", "序列号", "资产编号", "使用部门", "责任人",
        "功能描述", "采购日期", "质保到期", "状态", "功率(W)", "设备类型",
    ]
    .iter()
    .map(|s| text(s))
    .collect()
}

fn header15() -> Vec<Cell> {
    header16().into_iter().take(15).collect()
}

#[allow(clippy::too_many_arguments)]
fn make_row(
    name: &str, model: &str, room: &str, rack: &str, pos: &str, ip: &str, sn: &str, asset: &str, dept: &str,
    owner: &str, func: &str, purchase: &str, warranty: &str, status: &str, power: &str, dtype: Option<&str>,
) -> Vec<Cell> {
    let mut v: Vec<Cell> = [name, model, room, rack, pos, ip, sn, asset, dept, owner, func, purchase, warranty,
        status, power]
        .iter()
        .map(|s| text(s))
        .collect();
    if let Some(t) = dtype {
        v.push(text(t));
    }
    v
}

fn default_opts() -> ImportOptions {
    ImportOptions { update_mode: "skip".into(), link_room: false }
}

fn run(db: &mut Database, rows: &Vec<Vec<Cell>>, opts: &ImportOptions) -> rackviz::models::ImportResult {
    import_devices_excel(db, rows, opts).0.unwrap()
}

#[test]
fn test_import_legacy_15_columns_backward_compatible() {
    let mut db = setup_db();
    let rows = vec![
        header15(),
        make_row("Legacy-A", "OldModel", "", "", "", "", "SN-L1", "AS-L1", "", "", "", "", "", "开机", "700", None),
        make_row("Legacy-B", "OldModel", "", "", "", "", "SN-L2", "AS-L2", "", "", "", "", "", "离线", "800", None),
    ];
    let res = run(&mut db, &rows, &default_opts());
    assert_eq!(res.imported, 2);
    assert_eq!(res.skipped, 0);
    assert_eq!(res.updated, 0);
    assert_eq!(res.total, 2);
    assert_eq!(res.models_created, 1);
    assert!(res.errors.is_empty());
    assert!(res.warnings.is_empty());

    let models = list_device_models(&db);
    let m = models.iter().find(|m| m.name == "OldModel").unwrap();
    assert_eq!(m.device_type, "server");
    assert_eq!(list_devices(&db, None, None).len(), 2);
}

#[test]
fn test_import_device_type_mapping_and_warnings() {
    let mut db = setup_db();
    let rows = vec![
        header16(),
        make_row("D1", "M-SwitchCN", "", "", "", "", "SN-T1", "AS-T1", "", "", "", "", "", "开机", "100", Some("交换机")),
        make_row("D2", "M-SwitchEN", "", "", "", "", "SN-T2", "AS-T2", "", "", "", "", "", "开机", "100", Some("switch")),
        make_row("D3", "M-LbUpper", "", "", "", "", "SN-T3", "AS-T3", "", "", "", "", "", "开机", "100", Some("LOADBALANCER")),
        make_row("D4", "M-Empty", "", "", "", "", "SN-T4", "AS-T4", "", "", "", "", "", "开机", "100", Some("")),
        make_row("D5", "M-Unknown", "", "", "", "", "SN-T5", "AS-T5", "", "", "", "", "", "开机", "100", Some("防火墙")),
    ];
    let res = run(&mut db, &rows, &default_opts());
    assert_eq!(res.imported, 5);
    assert_eq!(res.total, 5);
    assert_eq!(res.models_created, 5);
    assert_eq!(res.warnings.len(), 1);
    assert!(res.warnings[0].contains("防火墙") && res.warnings[0].contains("其他"));

    let models = list_device_models(&db);
    let ty = |name: &str| models.iter().find(|m| m.name == name).unwrap().device_type.clone();
    assert_eq!(ty("M-SwitchCN"), "switch");
    assert_eq!(ty("M-SwitchEN"), "switch");
    assert_eq!(ty("M-LbUpper"), "loadbalancer");
    assert_eq!(ty("M-Empty"), "server");
    assert_eq!(ty("M-Unknown"), "other");
}

#[test]
fn test_import_update_mode_skip() {
    let mut db = setup_db();
    let rows = vec![
        header16(),
        make_row("Skip-1", "SModel", "", "", "", "", "SN-SKIP", "AS-SKIP", "", "", "", "", "", "开机", "10", Some("服务器")),
    ];
    let first = run(&mut db, &rows, &default_opts());
    assert_eq!(first.imported, 1);

    let opts = ImportOptions { update_mode: "skip".into(), link_room: false };
    let second = run(&mut db, &rows, &opts);
    assert_eq!(second.imported, 0);
    assert_eq!(second.updated, 0);
    assert_eq!(second.skipped, 1);
    assert_eq!(second.total, 1);
    assert_eq!(list_devices(&db, None, None).len(), 1);
}

#[test]
fn test_import_update_mode_overwrite() {
    let mut db = setup_db();
    let first_rows = vec![
        header16(),
        make_row("OW-1", "OWModel", "", "", "", "", "SN-OW", "AS-OW", "旧部门", "张三", "", "", "", "开机", "10", Some("服务器")),
    ];
    let first = run(&mut db, &first_rows, &default_opts());
    assert_eq!(first.imported, 1);

    let second_rows = vec![
        header16(),
        make_row("OW-1", "OWModel", "", "", "", "", "SN-OW", "AS-OW", "新部门", "李四", "", "", "", "离线", "10", Some("服务器")),
    ];
    let opts = ImportOptions { update_mode: "overwrite".into(), link_room: false };
    let second = run(&mut db, &second_rows, &opts);
    assert_eq!(second.imported, 0);
    assert_eq!(second.updated, 1);
    assert_eq!(second.skipped, 0);

    let devices = list_devices(&db, None, None);
    assert_eq!(devices.len(), 1);
    assert_eq!(devices[0].department, "新部门");
    assert_eq!(devices[0].owner, "李四");
    assert_eq!(devices[0].status, "offline");
}

#[test]
fn test_import_duplicate_detection_excludes_soft_deleted() {
    let mut db = setup_db();
    let ghost = insert_device(&mut db, &DeviceCreate {
        name: "Ghost".into(),
        serial_no: Some("SN-DEL".into()),
        ..Default::default()
    })
    .unwrap();
    assert!(soft_delete_device(&mut db, ghost.id));

    let rows = vec![
        header16(),
        make_row("Reborn", "RBModel", "", "", "", "", "SN-DEL", "AS-DEL", "", "", "", "", "", "开机", "5", Some("服务器")),
    ];
    let res = run(&mut db, &rows, &default_opts());
    assert_eq!(res.imported, 1);
    assert_eq!(res.skipped, 0);
    assert_eq!(list_devices(&db, None, None).len(), 1);
}

#[test]
fn test_import_link_room_creates_room_and_links_rack() {
    let mut db = setup_db();
    let rows = vec![
        header16(),
        make_row("LR-1", "LRModel", "机房Z", "RACK-Z", "", "", "SN-LR1", "AS-LR1", "", "", "", "", "", "开机", "10", Some("服务器")),
        make_row("LR-2", "LRModel", "机房Z", "RACK-Z", "", "", "SN-LR2", "AS-LR2", "", "", "", "", "", "开机", "10", Some("服务器")),
    ];
    let opts = ImportOptions { update_mode: "skip".into(), link_room: true };
    let res = run(&mut db, &rows, &opts);
    assert_eq!(res.imported, 2);
    let rooms = list_rooms(&db);
    assert_eq!(rooms.len(), 1);
    assert_eq!(rooms[0].name, "机房Z");

    let racks = list_racks(&db);
    let rz = racks.iter().find(|r| r.name == "RACK-Z").unwrap();
    assert_eq!(rz.room_id, Some(rooms[0].id));
}

#[test]
fn test_import_link_room_false_does_not_create_room() {
    let mut db = setup_db();
    let rows = vec![
        header16(),
        make_row("NL-1", "NLModel", "机房Y", "RACK-Y", "", "", "SN-NL1", "AS-NL1", "", "", "", "", "", "开机", "10", Some("服务器")),
    ];
    let res = run(&mut db, &rows, &default_opts());
    assert_eq!(res.imported, 1);
    assert!(list_rooms(&db).is_empty());
    let racks = list_racks(&db);
    assert_eq!(racks[0].room_id, None);
}

#[test]
fn test_import_existing_model_type_not_overwritten() {
    let mut db = setup_db();
    let twin_id = insert_device_model(&mut db, &DeviceModelCreate {
        name: "Twin".into(),
        device_type: Some("router".into()),
        ..Default::default()
    })
    .unwrap()
    .id;

    let rows = vec![
        header16(),
        make_row("TwinDev", "Twin", "", "", "", "", "SN-TW", "AS-TW", "", "", "", "", "", "开机", "10", Some("交换机")),
    ];
    let res = run(&mut db, &rows, &default_opts());
    assert_eq!(res.imported, 1);
    assert_eq!(res.models_created, 0);
    let m = get_device_model(&db, twin_id).unwrap();
    assert_eq!(m.device_type, "router");
    assert_eq!(res.warnings.len(), 1);
    assert!(res.warnings[0].contains("Twin") && res.warnings[0].contains("路由器"));
}

#[test]
fn test_import_existing_model_same_type_no_warning() {
    let mut db = setup_db();
    insert_device_model(&mut db, &DeviceModelCreate {
        name: "Same".into(),
        device_type: Some("switch".into()),
        ..Default::default()
    })
    .unwrap();
    let rows = vec![
        header16(),
        make_row("SameDev", "Same", "", "", "", "", "SN-SA", "AS-SA", "", "", "", "", "", "开机", "10", Some("switch")),
    ];
    let res = run(&mut db, &rows, &default_opts());
    assert_eq!(res.models_created, 0);
    assert!(res.warnings.is_empty());
}

#[test]
fn test_import_progress_phases() {
    let mut db = setup_db();
    let rows = vec![
        header16(),
        make_row("P1", "PModel", "", "", "", "", "SN-P1", "AS-P1", "", "", "", "", "", "开机", "10", Some("服务器")),
    ];
    let (res, events) = import_devices_excel(&mut db, &rows, &default_opts());
    res.unwrap();
    let p: Vec<String> = events.iter().map(|e| e.phase.clone()).collect();
    assert!(p.iter().any(|x| x == "parsing"));
    assert!(p.iter().any(|x| x == "importing"));
    assert_eq!(p.last().map(|s| s.as_str()), Some("done"));
}

fn ledger_cells(r: &LedgerRow) -> Vec<Cell> {
    vec![
        text(&r.name), text(&r.model), text(&r.room), text(&r.rack), text(&r.position), text(&r.ip_addresses),
        text(&r.serial_no), text(&r.asset_no), text(&r.department), text(&r.owner), text(&r.function),
        text(&r.purchase_date), text(&r.warranty_expire), text(&r.status), Cell::Int(r.power_watt as i64),
        text(&r.device_type),
    ]
}

#[test]
fn test_export_import_roundtrip_preserves_model_type() {
    let mut src = setup_db();
    let mid = insert_device_model(&mut src, &DeviceModelCreate {
        name: "RT-Model".into(),
        device_type: Some("switch".into()),
        ..Default::default()
    })
    .unwrap()
    .id;
    insert_device(&mut src, &DeviceCreate {
        name: "RT-Dev".into(),
        device_model_id: Some(mid),
        ip_addresses: Some("10.0.0.1".into()),
        ..Default::default()
    })
    .unwrap();

    let mut rows: Vec<Vec<Cell>> = vec![ledger_headers().iter().map(|h| text(h)).collect()];
    for r in export_devices_data(&src).iter() {
        rows.push(ledger_cells(r));
    }

    let mut dst = setup_db();
    let res = run(&mut dst, &rows, &default_opts());
    assert_eq!(res.imported, 1);
    let models = list_device_models(&dst);
    let m = models.iter().find(|m| m.name == "RT-Model").unwrap();
    assert_eq!(m.device_type, "switch");
}

#[test]
fn test_export_devices_data_excludes_soft_deleted() {
    let mut db = setup_db();
    insert_device(&mut db, &DeviceCreate { name: "KEEP-EXP".into(), ..Default::default() }).unwrap();
    let gone = insert_device(&mut db, &DeviceCreate { name: "GONE-EXP".into(), ..Default::default() }).unwrap();
    soft_delete_device(&mut db, gone.id);

    let rows = export_devices_data(&db);
    assert!(rows.iter().any(|r| r.name == "KEEP-EXP"));
    assert!(!rows.iter().any(|r| r.name == "GONE-EXP"));
}

#[test]
fn test_export_racks_usage_excludes_soft_deleted() {
    let mut db = setup_db();
    insert_rack(&mut db, &RackCreate { name: "RX".into(), height_u: Some(10), ..Default::default() }).unwrap();
    let dev = insert_device(&mut db, &DeviceCreate {
        name: "OCC".into(),
        rack_id: Some(1),
        start_u: Some(1),
        end_u: Some(4),
        ..Default::default()
    })
    .unwrap();

    let plan = export_racks(&db);
    let usage_active = plan.used_u[0] as f64 / plan.racks[0].height_u as f64 * 100.0;
    assert!((usage_active - 40.0).abs() < 0.01);

    soft_delete_device(&mut db, dev.id);
    let plan2 = export_racks(&db);
    let usage_deleted = plan2.used_u[0] as f64 / plan2.racks[0].height_u as f64 * 100.0;
    assert!(usage_deleted.abs() < 0.01);
}

// ----- beyond the original's cases -----

#[test]
fn import_rows_with_blank_names_are_not_read() {
    let rows = vec![
        header16(),
        make_row("", "X", "", "", "", "", "", "", "", "", "", "", "", "", "", None),
        make_row("  ", "X", "", "", "", "", "", "", "", "", "", "", "", "", "", None),
        make_row("Kept", "X", "", "", "", "", "", "", "", "", "", "", "", "", "", None),
    ];
    let (read, errors) = read_sheet(&rows);
    assert_eq!(read.len(), 1);
    assert_eq!(read[0].name, "Kept");
    assert_eq!(read[0].row_no, 4);
    assert!(errors.is_empty());
}

#[test]
fn import_stops_reading_past_the_row_limit() {
    let mut rows = vec![header16()];
    for i in 0..(MAX_IMPORT_ROWS as usize + 2) {
        rows.push(make_row(&format!("D{}", i), "", "", "", "", "", "", "", "", "", "", "", "", "", "", None));
    }
    let (read, errors) = read_sheet(&rows);
    assert_eq!(read.len(), MAX_IMPORT_ROWS as usize);
    assert_eq!(errors.len(), 1);
    assert!(errors[0].contains("5000"));
}

#[test]
fn import_skips_rejected_rows_with_a_warning() {
    let mut db = setup_db();
    let rows = vec![
        header16(),
        make_row("Good", "GM", "", "R1", "1-2", "", "SN-G", "", "", "", "", "", "", "开机", "1", None),
        make_row("Bad", "GM", "", "R1", "2-3", "", "SN-B", "", "", "", "", "", "", "开机", "1", None),
        make_row("BadIp", "GM", "", "", "", "999.1.1.1", "SN-I", "", "", "", "", "", "", "开机", "1", None),
    ];
    let (res, events) = import_devices_excel(&mut db, &rows, &default_opts());
    let res = res.unwrap();
    assert_eq!((res.imported, res.updated, res.skipped, res.total), (1, 0, 2, 3));
    assert_eq!(res.warnings.len(), 2);
    assert!(res.warnings[0].starts_with("第3行 已跳过："));
    assert!(res.warnings[1].starts_with("第4行 已跳过："));
    let devs = list_devices(&db, None, None);
    assert_eq!(devs.len(), 1);
    assert_eq!(devs[0].name, "Good");
    assert_eq!(events.last().map(|e| e.phase.as_str()), Some("done"));
}

#[test]
fn import_failure_leaves_database_as_it_was() {
    let mut db = setup_db();
    insert_device(&mut db, &DeviceCreate {
        name: "A".into(),
        serial_no: Some("SN-A".into()),
        asset_no: Some("AS-A".into()),
        ..Default::default()
    })
    .unwrap();
    insert_device(&mut db, &DeviceCreate {
        name: "B".into(),
        serial_no: Some("SN-B".into()),
        asset_no: Some("AS-B".into()),
        ..Default::default()
    })
    .unwrap();
    let rows = vec![
        header16(),
        make_row("New", "NM", "", "R7", "", "", "SN-N", "", "", "", "", "", "", "开机", "1", None),
        make_row("A", "", "", "", "", "", "SN-A", "AS-B", "", "", "", "", "", "开机", "1", None),
    ];
    let opts = ImportOptions { update_mode: "overwrite".into(), link_room: false };
    let (res, events) = import_devices_excel(&mut db, &rows, &opts);
    let e = res.unwrap_err();
    assert!(matches!(e.code, rackviz::error::ErrorCode::DatabaseError));
    assert_eq!(e.detail.as_deref(), Some("UNIQUE constraint failed: devices.asset_no"));
    let devs = list_devices(&db, None, None);
    assert_eq!(devs.len(), 2);
    assert!(devs.iter().any(|d| d.asset_no == "AS-A"));
    assert!(list_racks(&db).is_empty());
    assert!(list_device_models(&db).is_empty());
    assert_ne!(events.last().map(|e| e.phase.as_str()), Some("done"));
}

#[test]
fn import_reuses_existing_model_and_rack() {
    let mut db = setup_db();
    let mid = find_or_create_model(&mut db, "Shared").unwrap();
    let rows = vec![
        header16(),
        make_row("A", "Shared", "", "R9", "", "", "", "", "", "", "", "", "", "", "", None),
        make_row("B", "Shared", "", "R9", "", "", "", "", "", "", "", "", "", "", "", None),
    ];
    let now = "2024-01-02 03:04:05".to_string();
    let (res, events) = import_devices_excel_at(&mut db, &rows, &default_opts(), &now);
    let res = res.unwrap();
    assert_eq!(res.models_created, 0);
    assert_eq!(list_racks(&db).len(), 1);
    let devs = list_devices(&db, None, None);
    assert!(devs.iter().all(|d| d.device_model_id == Some(mid)));
    assert!(devs.iter().all(|d| d.created_at.as_deref() == Some("2024-01-02 03:04:05")));
    assert_eq!(events.len(), 3);
    assert_eq!((events[0].processed, events[0].total, events[0].phase.as_str()), (0, 0, "parsing"));
    assert_eq!((events[1].processed, events[1].total, events[1].phase.as_str()), (0, 2, "importing"));
    assert_eq!((events[2].processed, events[2].total), (2, 2));
}

#[test]
fn test_export_devices_data_excel_smoke() {
    let db = setup_db();
    assert!(export_devices_data(&db).is_empty());
    assert_eq!(ledger_headers().len(), 16);
    let plan = export_racks(&db);
    assert!(plan.racks.is_empty());
    assert_eq!(plan.max_u, 42);
    assert_eq!(plan.cells.len(), 42);
    assert_eq!(plan.cells[0].text, "42U");
    assert_eq!((plan.cells[0].row, plan.cells[0].col), (2, 0));
}
