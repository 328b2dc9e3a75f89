use rackviz::db::Database;
use rackviz::db::device_models::{find_or_create_model, get_device_model, insert_device_model, list_device_models,
    update_device_model};
use rackviz::db::racks::{delete_rack, find_or_create_rack, get_rack, insert_rack, link_rack_room, list_racks,
    update_rack};
use rackviz::db::rooms::{delete_room, find_or_create_room, get_room, insert_room, list_rooms, update_room};
use rackviz::db::settings::{get_setting, is_logging_enabled, set_logging_enabled, set_setting};
use rackviz::db::devices::{insert_device, list_devices};
use rackviz::error::ErrorCode;
use rackviz::models::{DeviceCreate, DeviceModelCreate, DeviceModelUpdate, Patch, RackCreate, RackUpdate, RoomCreate,
    RoomUpdate};

fn setup_db() -> Database {
    Database::new()
}

// ----- device models -----

#[test]
fn device_models_test_list_empty() {
    let db = setup_db();
    assert!(list_device_models(&db).is_empty());
}

#[test]
fn device_models_test_create_and_list() {
    let mut db = setup_db();
    insert_device_model(&mut db, &DeviceModelCreate { name: "Dell R750".into(), ..Default::default() }).unwrap();
    let models = list_device_models(&db);
    assert_eq!(models.len(), 1);
    assert_eq!(models[0].name, "Dell R750");
    assert_eq!(models[0].device_type, "server");
}

#[test]
fn device_models_test_find_or_create() {
    let mut db = setup_db();
    let id1 = find_or_create_model(&mut db, "H3C S6520").unwrap();
    let id2 = find_or_create_model(&mut db, "H3C S6520").unwrap();
    assert_eq!(id1, id2);
}

#[test]
fn models_listed_by_name() {
    let mut db = setup_db();
    for n in ["Zed", "Alpha", "Mid"] {
        insert_device_model(&mut db, &DeviceModelCreate { name: n.into(), ..Default::default() }).unwrap();
    }
    let names: Vec<String> = list_device_models(&db).into_iter().map(|m| m.name).collect();
    assert_eq!(names, vec!["Alpha", "Mid", "Zed"]);
}

#[test]
fn model_defaults_and_unique_name() {
    let mut db = setup_db();
    let m = insert_device_model(&mut db, &DeviceModelCreate { name: "M1".into(), ..Default::default() }).unwrap();
    assert_eq!((m.manufacturer.as_str(), m.height_u, m.power_watt), ("", 1, 0));
    assert!(m.created_at.is_none());
    let dup = insert_device_model(&mut db, &DeviceModelCreate { name: "M1".into(), ..Default::default() }).unwrap_err();
    assert!(matches!(dup.code, ErrorCode::DatabaseError));
    assert_eq!(dup.detail.as_deref(), Some("UNIQUE constraint failed: device_models.name"));
}

#[test]
fn model_update_clears_and_refuses() {
    let mut db = setup_db();
    let m = insert_device_model(&mut db, &DeviceModelCreate { name: "M1".into(), ..Default::default() }).unwrap();
    let err = update_device_model(&mut db, m.id, &DeviceModelUpdate { name: Patch::Clear, ..Default::default() })
        .unwrap_err();
    assert_eq!(err.detail.as_deref(), Some("NOT NULL constraint failed: device_models.name"));
    let up = update_device_model(&mut db, m.id, &DeviceModelUpdate { power_watt: Patch::Assign(450), ..Default::default() })
        .unwrap()
        .unwrap();
    assert_eq!(up.power_watt, 450);
    assert_eq!(get_device_model(&db, m.id).unwrap().power_watt, 450);
    assert!(update_device_model(&mut db, 99, &DeviceModelUpdate::default()).unwrap().is_none());
}

// ----- racks -----

#[test]
fn racks_test_list_empty() {
    let db = setup_db();
    assert!(list_racks(&db).is_empty());
}

#[test]
fn racks_test_create_and_list() {
    let mut db = setup_db();
    insert_rack(&mut db, &RackCreate { name: "A01".into(), ..Default::default() }).unwrap();
    let racks = list_racks(&db);
    assert_eq!(racks.len(), 1);
    assert_eq!(racks[0].name, "A01");
    assert_eq!(racks[0].height_u, 42);
}

#[test]
fn racks_test_find_or_create() {
    let mut db = setup_db();
    let id1 = find_or_create_rack(&mut db, "A01").unwrap();
    let id2 = find_or_create_rack(&mut db, "A01").unwrap();
    assert_eq!(id1, id2);
    let id3 = find_or_create_rack(&mut db, "B01").unwrap();
    assert_ne!(id1, id3);
}

#[test]
fn test_delete_cascade() {
    let mut db = setup_db();
    insert_rack(&mut db, &RackCreate { name: "A01".into(), ..Default::default() }).unwrap();
    delete_rack(&mut db, 1);
    assert!(list_racks(&db).is_empty());
}

#[test]
fn rack_delete_takes_devices_off_and_keeps_height() {
    let mut db = setup_db();
    insert_rack(&mut db, &RackCreate { name: "R".into(), ..Default::default() }).unwrap();
    insert_device(&mut db, &DeviceCreate {
        name: "D".into(),
        rack_id: Some(1),
        start_u: Some(3),
        end_u: Some(5),
        ..Default::default()
    })
    .unwrap();
    assert!(delete_rack(&mut db, 1));
    let d = &list_devices(&db, None, None)[0];
    assert_eq!((d.rack_id, d.start_u, d.end_u, d.height_u), (None, None, None, 3));
    assert!(!delete_rack(&mut db, 1));
}

#[test]
fn racks_listed_by_sort_order_then_id() {
    let mut db = setup_db();
    insert_rack(&mut db, &RackCreate { name: "late".into(), sort_order: Some(5), ..Default::default() }).unwrap();
    insert_rack(&mut db, &RackCreate { name: "early".into(), sort_order: Some(1), ..Default::default() }).unwrap();
    insert_rack(&mut db, &RackCreate { name: "tie".into(), sort_order: Some(5), ..Default::default() }).unwrap();
    let names: Vec<String> = list_racks(&db).into_iter().map(|r| r.name).collect();
    assert_eq!(names, vec!["early", "late", "tie"]);
}

#[test]
fn rack_update_and_missing_room() {
    let mut db = setup_db();
    let r = insert_rack(&mut db, &RackCreate { name: "R".into(), ..Default::default() }).unwrap();
    let err = update_rack(&mut db, r.id, &RackUpdate { room_id: Patch::Assign(7), ..Default::default() }).unwrap_err();
    assert_eq!(err.detail.as_deref(), Some("FOREIGN KEY constraint failed"));
    let up = update_rack(&mut db, r.id, &RackUpdate { height_u: Patch::Assign(24), ..Default::default() })
        .unwrap()
        .unwrap();
    assert_eq!(up.height_u, 24);
    assert_eq!(get_rack(&db, r.id).unwrap().height_u, 24);
    let same = update_rack(&mut db, r.id, &RackUpdate::default()).unwrap().unwrap();
    assert_eq!(same.updated_at, up.updated_at);
}

#[test]
fn link_rack_room_keeps_existing_room() {
    let mut db = setup_db();
    let a = insert_room(&mut db, &RoomCreate { name: "A".into(), ..Default::default() }).unwrap();
    let b = insert_room(&mut db, &RoomCreate { name: "B".into(), ..Default::default() }).unwrap();
    let r = insert_rack(&mut db, &RackCreate { name: "R".into(), ..Default::default() }).unwrap();
    link_rack_room(&mut db, r.id, a.id).unwrap();
    link_rack_room(&mut db, r.id, b.id).unwrap();
    assert_eq!(get_rack(&db, r.id).unwrap().room_id, Some(a.id));
}

// ----- rooms -----

#[test]
fn rooms_test_list_empty() {
    let db = setup_db();
    let rooms = list_rooms(&db);
    assert!(rooms.is_empty());
}

#[test]
fn rooms_test_create_and_list() {
    let mut db = setup_db();
    insert_room(&mut db, &RoomCreate { name: "A机房".into(), ..Default::default() }).unwrap();
    let rooms = list_rooms(&db);
    assert_eq!(rooms.len(), 1);
    assert_eq!(rooms[0].name, "A机房");
}

#[test]
fn test_get_nonexistent() {
    let db = setup_db();
    assert!(get_room(&db, 999).is_none());
}

#[test]
fn test_update() {
    let mut db = setup_db();
    insert_room(&mut db, &RoomCreate { name: "Old".into(), ..Default::default() }).unwrap();
    let updated = update_room(&mut db, 1, &RoomUpdate { name: Patch::Assign("New".into()), ..Default::default() }).unwrap();
    assert_eq!(updated.unwrap().name, "New");
}

#[test]
fn rooms_test_delete() {
    let mut db = setup_db();
    insert_room(&mut db, &RoomCreate { name: "ToDelete".into(), ..Default::default() }).unwrap();
    assert!(delete_room(&mut db, 1));
    assert!(list_rooms(&db).is_empty());
}

#[test]
fn test_find_or_create_room_idempotent() {
    let mut db = setup_db();
    let id1 = find_or_create_room(&mut db, "机房A").unwrap();
    let id2 = find_or_create_room(&mut db, "机房A").unwrap();
    assert_eq!(id1, id2, "同名机房必须复用同一 id");
    let id3 = find_or_create_room(&mut db, "机房B").unwrap();
    assert_ne!(id1, id3);
    assert_eq!(list_rooms(&db).len(), 2);
}

#[test]
fn room_names_unique_and_delete_frees_racks() {
    let mut db = setup_db();
    insert_room(&mut db, &RoomCreate { name: "A".into(), ..Default::default() }).unwrap();
    let err = insert_room(&mut db, &RoomCreate { name: "A".into(), ..Default::default() }).unwrap_err();
    assert_eq!(err.detail.as_deref(), Some("UNIQUE constraint failed: rooms.name"));
    insert_rack(&mut db, &RackCreate { name: "R".into(), room_id: Some(1), ..Default::default() }).unwrap();
    assert!(delete_room(&mut db, 1));
    assert_eq!(get_rack(&db, 1).unwrap().room_id, None);
}

#[test]
fn room_location_cannot_be_cleared() {
    let mut db = setup_db();
    insert_room(&mut db, &RoomCreate { name: "A".into(), location: Some("F1".into()), ..Default::default() }).unwrap();
    let err = update_room(&mut db, 1, &RoomUpdate { location: Patch::Clear, ..Default::default() }).unwrap_err();
    assert_eq!(err.detail.as_deref(), Some("Invalid column type Null at index: 2, name: location"));
    assert_eq!(get_room(&db, 1).unwrap().location, "F1");
}

// ----- settings -----

#[test]
fn settings_read_back_what_was_written() {
    let mut db = setup_db();
    assert!(!is_logging_enabled(&db));
    set_logging_enabled(&mut db, true);
    assert!(is_logging_enabled(&db));
    set_setting(&mut db, "theme", "dark");
    assert_eq!(get_setting(&db, "theme").as_deref(), Some("dark"));
    set_setting(&mut db, "theme", "light");
    assert_eq!(get_setting(&db, "theme").as_deref(), Some("light"));
    assert_eq!(get_setting(&db, "logging_enabled").as_deref(), Some("true"));
    assert!(get_setting(&db, "missing").is_none());
}

#[test]
fn stored_tables_checked_against_the_invariant() {
    let mut db = setup_db();
    assert!(db.is_well_formed());
    insert_device(&mut db, &DeviceCreate { name: "A".into(), serial_no: Some("SN".into()), ..Default::default() })
        .unwrap();
    insert_device(&mut db, &DeviceCreate { name: "B".into(), ..Default::default() }).unwrap();
    assert!(db.is_well_formed());
    db.devices[1].serial_no = "SN".into();
    assert!(!db.is_well_formed());
    db.devices[1].deleted_at = Some("2024-01-01T00:00:00Z".into());
    assert!(db.is_well_formed());
    db.next_device_id = 2;
    assert!(!db.is_well_formed());
}

#[test]
fn test_unique_serial_blocks_duplicates() {
    let mut db = setup_db();
    insert_device(&mut db, &DeviceCreate { name: "A".into(), serial_no: Some("SN-1".into()), ..Default::default() })
        .unwrap();
    insert_device(&mut db, &DeviceCreate { name: "B".into(), serial_no: Some("SN-2".into()), ..Default::default() })
        .unwrap();
    let dup = insert_device(&mut db, &DeviceCreate { name: "C".into(), serial_no: Some("SN-1".into()), ..Default::default() });
    assert!(dup.is_err());
    insert_device(&mut db, &DeviceCreate { name: "C".into(), serial_no: Some("".into()), ..Default::default() }).unwrap();
    insert_device(&mut db, &DeviceCreate { name: "D".into(), serial_no: Some("".into()), ..Default::default() }).unwrap();
}

#[test]
fn maps_by_id_of_models_racks_and_rooms() {
    let mut db = setup_db();
    let m = insert_device_model(&mut db, &DeviceModelCreate { name: "Dell R750".into(), ..Default::default() }).unwrap();
    let room = insert_room(&mut db, &RoomCreate { name: "A1".into(), ..Default::default() }).unwrap();
    let rack = insert_rack(&mut db, &RackCreate { name: "R01".into(), room_id: Some(room.id), ..Default::default() })
        .unwrap();
    let models = rackviz::db::device_models::list_models_map(&db);
    assert_eq!(models.len(), 1);
    assert_eq!(models.get(&m.id).map(|s| s.as_str()), Some("Dell R750"));
    let rooms = rackviz::db::rooms::list_rooms_map(&db);
    assert_eq!(rooms.get(&room.id).map(|s| s.as_str()), Some("A1"));
    let racks = rackviz::db::racks::list_racks_map(&db);
    assert_eq!(racks.get(&rack.id), Some(&("R01".to_string(), Some(room.id))));
    assert!(racks.get(&(rack.id + 1000)).is_none());
}

#[test]
fn transaction_keeps_success_and_drops_failure() {
    let mut db = setup_db();
    let ok = rackviz::db::with_transaction(&mut db, |c: &mut Database| {
        insert_rack(c, &RackCreate { name: "R01".into(), ..Default::default() })
    });
    assert_eq!(ok.unwrap().name, "R01");
    assert_eq!(list_racks(&db).len(), 1);
    let failed: Result<(), rackviz::error::AppError> = rackviz::db::with_transaction(&mut db, |c: &mut Database| {
        insert_rack(c, &RackCreate { name: "R02".into(), ..Default::default() })?;
        insert_rack(c, &RackCreate { name: "R03".into(), room_id: Some(999), ..Default::default() })?;
        Ok(())
    });
    let e = failed.unwrap_err();
    assert_eq!(e.code, ErrorCode::DatabaseError);
    assert_eq!(e.detail.as_deref(), Some("FOREIGN KEY constraint failed"));
    let racks = list_racks(&db);
    assert_eq!(racks.len(), 1);
    assert_eq!(racks[0].name, "R01");
}
