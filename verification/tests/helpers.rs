use rackviz::commands::{
    auto_backup_answer, byte_len, create_device, create_device_model, create_rack, create_room, db_health,
    delete_devices, logging_config, purge_device, restore_scheduled,
};
use rackviz::db::devices::{insert_device, list_devices, soft_delete_device};
use rackviz::db::settings::set_logging_enabled;
use rackviz::db::Database;
use rackviz::error::{AppError, ErrorCode};
use rackviz::excel::{
    cell_to_int, cell_to_string, device_type_label, format_position, get_status_label, parse_i32, parse_u_range,
    status_from_label, Cell,
};
use rackviz::like::like_matches;
use rackviz::models::{Date, DeviceCreate, DeviceModelCreate, RackCreate, RoomCreate};
use rackviz::validation::{escape_like, format_date, parse_flexible_date, validate_ip_addresses, validate_u_range};

#[test]
fn position_text_forms() {
    assert_eq!(format_position(Some(3), Some(5)), "3-5U");
    assert_eq!(format_position(Some(7), None), "7U");
    assert_eq!(format_position(None, Some(2)), "");
    assert_eq!(format_position(None, None), "");
}

#[test]
fn u_range_text_forms() {
    assert_eq!(parse_u_range("3-5U"), Some((3, 5)));
    assert_eq!(parse_u_range(" 7u "), Some((7, 7)));
    assert_eq!(parse_u_range("10 - 12"), Some((10, 12)));
    assert_eq!(parse_u_range(""), None);
    assert_eq!(parse_u_range("a-b"), None);
}

#[test]
fn status_labels_both_ways() {
    assert_eq!(get_status_label("online"), "开机");
    assert_eq!(get_status_label("offline"), "离线");
    assert_eq!(get_status_label("unconfigured"), "未上架");
    assert_eq!(get_status_label("weird"), "weird");
    assert_eq!(status_from_label("开机"), "online");
    assert_eq!(status_from_label("offline"), "offline");
    assert_eq!(status_from_label("离线"), "offline");
    assert_eq!(status_from_label("whatever"), "unconfigured");
}

#[test]
fn type_labels() {
    assert_eq!(device_type_label("switch"), "交换机");
    assert_eq!(device_type_label("router"), "路由器");
    assert_eq!(device_type_label("nonsense"), "其他");
}

#[test]
fn integers_read_like_from_str() {
    assert_eq!(parse_i32("42"), Some(42));
    assert_eq!(parse_i32("-7"), Some(-7));
    assert_eq!(parse_i32("+8"), Some(8));
    assert_eq!(parse_i32("2147483647"), Some(i32::MAX));
    assert_eq!(parse_i32("2147483648"), None);
    assert_eq!(parse_i32("-2147483648"), Some(i32::MIN));
    assert_eq!(parse_i32(" 1"), None);
    assert_eq!(parse_i32(""), None);
    assert_eq!(parse_i32("-"), None);
}

#[test]
fn cells_as_text_and_integer() {
    assert_eq!(cell_to_string(&Cell::Int(-12)), "-12");
    assert_eq!(cell_to_string(&Cell::Bool(true)), "true");
    assert_eq!(cell_to_string(&Cell::Float { text: "2.5".into(), whole: 2 }), "2.5");
    assert_eq!(cell_to_string(&Cell::Other), "");
    assert_eq!(cell_to_int(&Cell::Float { text: "2.5".into(), whole: 2 }), Some(2));
    assert_eq!(cell_to_int(&Cell::Text("300".into())), Some(300));
    assert_eq!(cell_to_int(&Cell::Bool(true)), None);
}

#[test]
fn like_escaping_and_matching() {
    assert_eq!(escape_like("50%_a\\b"), "50\\%\\_a\\\\b");
    assert!(like_matches("Server-01", "%ver%"));
    assert!(like_matches("server", "SERVER"));
    assert!(!like_matches("100x", "%100\\%%"));
    assert!(like_matches("100%", "%100\\%%"));
    assert!(like_matches("ab", "a_"));
    assert!(!like_matches("abc", "a_"));
}

#[test]
fn u_ranges_and_ip_lists() {
    assert!(validate_u_range(Some(1), Some(2)).is_ok());
    assert!(validate_u_range(Some(0), Some(2)).is_err());
    assert!(validate_u_range(Some(3), Some(2)).is_err());
    assert!(validate_u_range(None, Some(2)).is_ok());
    assert!(validate_ip_addresses("10.0.0.1, 10.0.0.2；fe80::1").is_ok());
    assert!(validate_ip_addresses("").is_ok());
    assert!(validate_ip_addresses("10.0.0.256").is_err());
    assert!(validate_ip_addresses("01.2.3.4").is_err());
}

#[test]
fn dates_in_three_forms() {
    let d = parse_flexible_date(" 2024/02/29 ").unwrap();
    assert_eq!((d.year, d.month, d.day), (2024, 2, 29));
    assert_eq!(format_date(Some(d)), "2024-02-29");
    assert!(parse_flexible_date("2024.01.05").is_some());
    assert!(parse_flexible_date("2023-02-29").is_none());
    assert!(parse_flexible_date("   ").is_none());
    assert_eq!(format_date(None), "");
}

#[test]
fn utf8_length_in_bytes() {
    assert_eq!(byte_len("abc"), 3);
    assert_eq!(byte_len("机柜"), 6);
    assert_eq!(byte_len(""), 0);
}

#[test]
fn create_checks_names() {
    let mut db = Database::new();
    let e = create_device(&mut db, &DeviceCreate { name: "   ".into(), ..Default::default() }).unwrap_err();
    assert_eq!(e.message, "设备名称不能为空");
    let e = create_device(&mut db, &DeviceCreate { name: "设".repeat(34), ..Default::default() }).unwrap_err();
    assert_eq!(e.message, "设备名称不能超过100个字符");
    assert!(create_device(&mut db, &DeviceCreate { name: "设".repeat(33), ..Default::default() }).is_ok());
    assert_eq!(create_rack(&mut db, &RackCreate::default()).unwrap_err().message, "机柜名称不能为空");
    assert_eq!(create_room(&mut db, &RoomCreate::default()).unwrap_err().message, "机房名称不能为空");
    assert_eq!(create_device_model(&mut db, &DeviceModelCreate::default()).unwrap_err().message, "型号名称不能为空");
    assert_eq!(list_devices(&db, None, None).len(), 1);
}

#[test]
fn delete_devices_counts_each_id_once() {
    let mut db = Database::new();
    let a = insert_device(&mut db, &DeviceCreate { name: "A".into(), ..Default::default() }).unwrap();
    let res = delete_devices(&mut db, &vec![a.id, a.id, 999]).unwrap();
    assert_eq!(res.deleted, 1);
    assert_eq!(res.not_found, vec![999]);
    let none = delete_devices(&mut db, &vec![]).unwrap();
    assert_eq!(none.deleted, 0);
    assert!(none.not_found.is_empty());
}

#[test]
fn delete_devices_refuses_more_than_the_limit() {
    let mut db = Database::new();
    let ids: Vec<i32> = (1..=1001).collect();
    let e = delete_devices(&mut db, &ids).unwrap_err();
    assert!(matches!(e.code, ErrorCode::ValidationError));
    assert_eq!(e.message, "单次批量删除不能超过 1000 个设备（当前 1001 个）");
    let mut repeated: Vec<i32> = (1..=1000).collect();
    repeated.push(1);
    assert!(delete_devices(&mut db, &repeated).is_ok());
}

#[test]
fn purge_only_from_the_recycle_bin() {
    let mut db = Database::new();
    let a = insert_device(&mut db, &DeviceCreate { name: "A".into(), ..Default::default() }).unwrap();
    let e = purge_device(&mut db, a.id).unwrap_err();
    assert_eq!(e.message, "该设备不在回收站中，无法彻底删除");
    soft_delete_device(&mut db, a.id);
    assert_eq!(purge_device(&mut db, a.id).unwrap(), "A");
    let e = purge_device(&mut db, a.id).unwrap_err();
    assert!(matches!(e.code, ErrorCode::NotFound));
    assert_eq!(e.message, "设备 不存在");
}

#[test]
fn answers_of_commands() {
    let ok = db_health(&Ok(()), 3);
    assert!(ok.ok && ok.message.is_empty() && ok.backup_count == 3);
    let bad = db_health(&Err(AppError::validation("坏了")), 0);
    assert!(!bad.ok);
    assert_eq!(bad.message, "[ValidationError] 坏了");
    assert!(restore_scheduled().restart_required);
    assert_eq!(auto_backup_answer(None).message, "今日已自动备份，跳过");
    assert_eq!(auto_backup_answer(Some("x.db")).message, "自动备份完成：x.db");
}

#[test]
fn logging_switch_read_back() {
    let mut db = Database::new();
    assert!(!logging_config(&db, "/logs".into()).enabled);
    set_logging_enabled(&mut db, true);
    let c = logging_config(&db, "/logs".into());
    assert!(c.enabled);
    assert_eq!(c.log_dir, "/logs");
}

#[test]
fn status_rejection_quotes_the_status() {
    let e = rackviz::validation::validate_status("bu\"sy").unwrap_err();
    assert_eq!(e.message, "设备状态取值非法：\"bu\\\"sy\"（须为 online / offline / unconfigured）");
    assert!(rackviz::validation::validate_status("offline").is_ok());
}

#[test]
fn files_beside_the_database() {
    assert_eq!(rackviz::backup::marker_path("/d/rackviz.db"), "/d/restore.pending");
    assert_eq!(rackviz::backup::auto_backup_dir("/d/rackviz.db"), "/d/backups");
    assert_eq!(rackviz::backup::marker_path("rackviz.db"), "restore.pending");
    assert_eq!(rackviz::backup::log_dir("/data"), "/data/logs");
    assert_eq!(rackviz::backup::log_dir("/data/app"), "/data/app/logs");
    assert_eq!(rackviz::backup::log_dir("/data/app/"), "/data/app/logs");
    assert_eq!(rackviz::backup::log_dir(""), "logs");
    assert_eq!(rackviz::backup::auto_backup_dir("/data/rackviz.db"), "/data/backups");
    assert_eq!(rackviz::backup::auto_backup_dir("/rackviz.db"), "/backups");
    assert_eq!(rackviz::backup::marker_path("rackviz.db"), "restore.pending");
    assert_eq!(rackviz::backup::marker_path("/"), "restore.pending");
    assert_eq!(rackviz::backup::marker_path(""), "restore.pending");
    assert_eq!(rackviz::backup::auto_backup_dir("/"), "backups");
}

#[test]
fn next_backup_file_in_directory() {
    let p = rackviz::backup::next_auto_backup_path("/data/backups");
    assert!(p.starts_with("/data/backups/rackviz-auto-"));
    assert!(p.ends_with(".db"));
    let name = &p["/data/backups/".len()..];
    assert!(rackviz::backup::is_auto_backup_name(name));
    assert!(!name.contains('/'));
}

#[test]
fn dates_written_with_padding_and_sign() {
    assert_eq!(format_date(Some(Date { year: 5, month: 3, day: 7 })), "0005-03-07");
    assert_eq!(format_date(Some(Date { year: 2023, month: 2, day: 29 })), "");
    assert_eq!(format_date(Some(Date { year: 2024, month: 13, day: 1 })), "");
    assert_eq!(format_date(Some(Date { year: 12345, month: 1, day: 2 })), "+12345-01-02");
    assert_eq!(format_date(Some(Date { year: -5, month: 1, day: 1 })), "-0005-01-01");
    assert_eq!(format_date(Some(Date { year: 1900, month: 2, day: 29 })), "");
    assert_eq!(format_date(Some(Date { year: 2000, month: 2, day: 29 })), "2000-02-29");
}

#[test]
fn type_labels_normalise_back() {
    for t in ["server", "switch", "router", "storage", "nas", "security", "loadbalancer", "other"] {
        assert_eq!(rackviz::models::normalize_device_type(device_type_label(t)), t);
    }
    assert_eq!(rackviz::models::normalize_device_type(device_type_label("unknown")), "other");
    assert_eq!(rackviz::models::normalize_device_type("NAS 存储"), "nas");
    assert_eq!(rackviz::models::normalize_device_type(" 服务器 "), "server");
    assert_eq!(rackviz::models::normalize_device_type("nas_存储"), "nas");
    assert_eq!(rackviz::models::normalize_device_type("LOAD-Balancer"), "loadbalancer");
    assert_eq!(rackviz::models::normalize_device_type("负载 均衡"), "loadbalancer");
}
