use rackviz::db::Database;
use rackviz::db::device_models::insert_device_model;
use rackviz::db::devices::{insert_device, soft_delete_device};
use rackviz::db::racks::insert_rack;
use rackviz::db::rooms::insert_room;
use rackviz::models::{DeviceCreate, DeviceModelCreate, RackCreate, RoomCreate};
use rackviz::report::report_data;

fn setup_db() -> Database {
    Database::new()
}

#[test]
fn test_report_excludes_soft_deleted() {
    let mut db = setup_db();
    insert_device(&mut db, &DeviceCreate { name: "KEEP".into(), ..Default::default() }).unwrap();
    let gone = insert_device(&mut db, &DeviceCreate { name: "GONE".into(), ..Default::default() }).unwrap();
    soft_delete_device(&mut db, gone.id);

    let data = report_data(&db);
    assert!(data.devices.iter().any(|d| d.name == "KEEP"), "在用设备应出现在报表");
    assert!(!data.devices.iter().any(|d| d.name == "GONE"), "软删设备不得出现在报表");
}

#[test]
fn test_report_computes_room_utilization_and_types() {
    let mut db = setup_db();
    insert_room(&mut db, &RoomCreate { name: "A机房".into(), ..Default::default() }).unwrap();
    insert_rack(&mut db, &RackCreate {
        name: "R01".into(), room_id: Some(1), height_u: Some(10), ..Default::default()
    }).unwrap();
    // 一台 4U 设备（交换机型号）挂在 R01
    let mid = insert_device_model(&mut db, &DeviceModelCreate {
        name: "H3C-SW".into(),
        device_type: Some("switch".into()),
        ..Default::default()
    })
    .unwrap()
    .id;
    insert_device(&mut db, &DeviceCreate {
        name: "SW1".into(),
        device_model_id: Some(mid),
        rack_id: Some(1),
        start_u: Some(1),
        end_u: Some(4),
        ..Default::default()
    }).unwrap();

    let data = report_data(&db);
    assert!(data.room_utils.iter().any(|r| r.name == "A机房"));
    // 使用率 4/10 = 40%
    assert_eq!(data.room_utils[0].pct, 40, "使用率应为 40%");
    assert!(data.type_slices.iter().any(|t| t.label == "交换机"), "类型分布应含交换机");
}

#[test]
fn report_figures_in_integers() {
    let mut db = setup_db();
    insert_room(&mut db, &RoomCreate { name: "R".into(), ..Default::default() }).unwrap();
    insert_rack(&mut db, &RackCreate { name: "K".into(), room_id: Some(1), height_u: Some(3), ..Default::default() }).unwrap();
    insert_device(&mut db, &DeviceCreate {
        name: "a".into(), rack_id: Some(1), start_u: Some(1), end_u: Some(1), status: Some("online".into()),
        ..Default::default()
    }).unwrap();
    insert_device(&mut db, &DeviceCreate { name: "b".into(), status: Some("offline".into()), ..Default::default() }).unwrap();
    insert_device(&mut db, &DeviceCreate { name: "c".into(), ..Default::default() }).unwrap();
    let data = report_data(&db);
    assert_eq!((data.online_count, data.offline_count, data.unconfigured_count), (1, 1, 1));
    let bar = &data.room_utils[0];
    assert_eq!((bar.used_u, bar.total_u, bar.pct, bar.bar_px, bar.y, bar.text_y), (1, 3, 33, 105, 12, 24));
    assert_eq!(data.bar_chart_height, 50);
    assert_eq!(data.type_total, 3);
    assert_eq!(data.type_slices.len(), 1);
    let part = &data.type_slices[0];
    assert_eq!((part.label.as_str(), part.count, part.pct, part.x, part.width), ("其他", 3, 100, 0, 480));
    assert_eq!(data.devices[0].status_label, "开机");
    assert_eq!(data.devices[2].status_class, "unconfigured");
}

#[test]
fn report_built_when_figures_fit() {
    let mut db = Database::new();
    assert!(rackviz::report::fits_report(&db));
    insert_room(&mut db, &RoomCreate { name: "A".into(), ..Default::default() }).unwrap();
    let r = rackviz::report::build_report(&db).unwrap();
    assert_eq!(r.room_utils.len(), 1);
    assert_eq!(r.bar_chart_height, 50);
    db.racks.push(rackviz::models::Rack {
        id: 1,
        name: "Huge".into(),
        height_u: i32::MAX,
        row: 0,
        col: 0,
        view: "front".into(),
        sort_order: 0,
        room_id: Some(1),
        created_at: None,
        updated_at: None,
    });
    db.next_rack_id = 2;
    db.racks.push(rackviz::models::Rack {
        id: 2,
        name: "More".into(),
        height_u: 1,
        row: 0,
        col: 0,
        view: "front".into(),
        sort_order: 0,
        room_id: Some(1),
        created_at: None,
        updated_at: None,
    });
    db.next_rack_id = 3;
    assert!(db.is_well_formed());
    assert!(rackviz::report::build_report(&db).is_none());
}
