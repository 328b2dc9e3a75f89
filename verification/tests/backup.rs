use rackviz::backup::{
    auto_backup_due, check_db_integrity, next_auto_backup_path, delete_backup_check, is_auto_backup_name, prune_selection, sort_names,
    sorted_auto_backups, staging_path, validate_backup, with_suffix, BackupProbe, AUTO_BACKUP_KEEP,
    LIVE_SCHEMA_VERSION,
};
use rackviz::error::ErrorCode;
use rackviz::restore::{restore_start, restore_step, RestoreAction, RestoreEvent, RestorePhase};

fn auto_name(i: u32) -> String {
    format!("rackviz-auto-20260917-00000{}.db", i)
}

#[test]
fn prune_keeps_the_latest_seven() {
    let mut names: Vec<String> = (0..10).rev().map(auto_name).collect();
    names.push("rackviz-backup-manual.db".to_string());
    let sorted = sorted_auto_backups(&names);
    assert_eq!(sorted.len(), 10);
    assert_eq!(sorted[0], auto_name(0));
    let deleted = prune_selection(&sorted, AUTO_BACKUP_KEEP);
    assert_eq!(deleted, vec![auto_name(0), auto_name(1), auto_name(2)]);
    let remain: Vec<String> = sorted[deleted.len()..].to_vec();
    assert_eq!(remain.len(), 7);
    assert!(prune_selection(&remain, AUTO_BACKUP_KEEP).is_empty());
}

#[test]
fn names_sort_in_text_order() {
    let names = vec!["b".to_string(), "a".to_string(), "c".to_string(), "a".to_string()];
    assert_eq!(sort_names(&names), vec!["a", "a", "b", "c"]);
}

#[test]
fn auto_backup_names() {
    assert!(is_auto_backup_name("rackviz-auto-20260917-000000.db"));
    assert!(!is_auto_backup_name("rackviz-backup-manual.db"));
    assert!(!is_auto_backup_name("rackviz-auto-x.txt"));
}

#[test]
fn backup_is_due_after_a_day() {
    assert!(auto_backup_due(None));
    assert!(!auto_backup_due(Some(86399)));
    assert!(auto_backup_due(Some(86400)));
}

#[test]
fn delete_backup_name_whitelist() {
    let e = delete_backup_check("../rackviz.db", true).unwrap_err();
    assert_eq!(e.message, "非法的备份文件名");
    assert!(delete_backup_check("rackviz.db", true).is_err());
    assert!(delete_backup_check("rackviz-auto-x.txt", true).is_err());
    assert!(delete_backup_check("rackviz-auto-../x.db", true).is_err());
    let e = delete_backup_check("rackviz-auto-20260917-000000.db", false).unwrap_err();
    assert_eq!(e.message, "备份文件不存在");
    delete_backup_check("rackviz-auto-20260917-000000.db", true).unwrap();
}

#[test]
fn integrity_check_decisions() {
    check_db_integrity(&Ok("ok".to_string()), 5, LIVE_SCHEMA_VERSION).unwrap();
    let e = check_db_integrity(&Ok("ok".to_string()), 6, LIVE_SCHEMA_VERSION).unwrap_err();
    assert!(matches!(e.code, ErrorCode::ValidationError));
    assert_eq!(e.message, "数据库版本（v6）高于当前程序支持版本（v5）");
    let e = check_db_integrity(&Ok("page 3 bad".to_string()), 5, LIVE_SCHEMA_VERSION).unwrap_err();
    assert_eq!(e.message, "数据库结构损坏（integrity_check: page 3 bad）");
    let e = check_db_integrity(&Err("disk".to_string()), 5, LIVE_SCHEMA_VERSION).unwrap_err();
    assert!(matches!(e.code, ErrorCode::IoError));
    assert_eq!(e.message, "integrity_check 执行失败: disk");
}

fn good_probe() -> BackupProbe {
    BackupProbe {
        exists: true,
        open_failure: None,
        integrity: Ok("ok".to_string()),
        devices_tables: Ok(1),
        version: 5,
    }
}

#[test]
fn validate_backup_decisions() {
    validate_backup(&good_probe()).unwrap();
    let e = validate_backup(&BackupProbe { exists: false, ..good_probe() }).unwrap_err();
    assert_eq!(e.message, "备份文件不存在");
    let e = validate_backup(&BackupProbe { open_failure: Some("not a database".into()), ..good_probe() }).unwrap_err();
    assert!(matches!(e.code, ErrorCode::DatabaseError));
    let e = validate_backup(&BackupProbe { integrity: Ok("broken".into()), ..good_probe() }).unwrap_err();
    assert_eq!(e.message, "备份文件已损坏（integrity_check: broken）");
    let e = validate_backup(&BackupProbe { devices_tables: Ok(0), ..good_probe() }).unwrap_err();
    assert_eq!(e.message, "备份文件缺少 devices 表，不是有效的 RackViz 备份");
    let e = validate_backup(&BackupProbe { version: 6, ..good_probe() }).unwrap_err();
    assert_eq!(e.message, "备份文件版本（v6）高于当前程序支持版本（v5），请升级程序后再恢复");
}

#[test]
fn restore_paths() {
    assert_eq!(with_suffix("/d/rackviz.db", "-wal"), "/d/rackviz.db-wal");
    assert_eq!(staging_path("/d/rackviz.db"), "/d/rackviz.db.restore-pending");
}

#[test]
fn restore_without_marker_is_noop() {
    let (mut run, first) = restore_start("/d/rackviz.db");
    assert!(matches!(first, RestoreAction::CheckExists(ref p) if p.ends_with("restore.pending")));
    let a = restore_step(&mut run, RestoreEvent::Exists(false));
    assert!(matches!(a, RestoreAction::Finish(Ok(()))));
    assert!(matches!(run.phase, RestorePhase::Finished));
}

#[test]
fn restore_applies_staged_file_and_cleans_up() {
    let (mut run, _) = restore_start("/d/rackviz.db");
    let steps = [
        RestoreEvent::Exists(true),
        RestoreEvent::Exists(true),
        RestoreEvent::Exists(true),
        RestoreEvent::Done(Ok(())),
        RestoreEvent::Exists(true),
        RestoreEvent::Done(Ok(())),
        RestoreEvent::Exists(false),
        RestoreEvent::Exists(true),
        RestoreEvent::Done(Ok(())),
        RestoreEvent::Done(Ok(())),
        RestoreEvent::Exists(true),
        RestoreEvent::Done(Ok(())),
        RestoreEvent::Done(Ok(())),
        RestoreEvent::Done(Ok(())),
    ];
    let mut actions = Vec::new();
    for e in steps {
        actions.push(restore_step(&mut run, e));
    }
    assert!(matches!(&actions[0], RestoreAction::CheckExists(p) if p == "/d/rackviz.db.restore-pending"));
    assert!(matches!(&actions[1], RestoreAction::CheckExists(p) if p == "/d/rackviz.db-wal"));
    assert!(matches!(&actions[2], RestoreAction::RemoveQuietly(p) if p == "/d/rackviz.db-wal"));
    assert!(matches!(&actions[4], RestoreAction::RemoveQuietly(p) if p == "/d/rackviz.db-shm"));
    assert!(matches!(&actions[7], RestoreAction::Rename(a, b) if a == "/d/rackviz.db" && b == "/d/rackviz.db.old"));
    assert!(matches!(&actions[8], RestoreAction::Copy(a, b) if a == "/d/rackviz.db.restore-pending" && b == "/d/rackviz.db"));
    assert!(matches!(&actions[13], RestoreAction::Finish(Ok(()))));
    assert!(matches!(run.phase, RestorePhase::Finished));
}

#[test]
fn restore_rolls_back_when_copy_fails() {
    let (mut run, _) = restore_start("/d/rackviz.db");
    for e in [
        RestoreEvent::Exists(true),
        RestoreEvent::Exists(true),
        RestoreEvent::Exists(false),
        RestoreEvent::Exists(false),
        RestoreEvent::Exists(false),
        RestoreEvent::Exists(true),
        RestoreEvent::Done(Ok(())),
    ] {
        restore_step(&mut run, e);
    }
    let a = restore_step(&mut run, RestoreEvent::Done(Err("disk full".into())));
    assert!(matches!(&a, RestoreAction::CheckExists(p) if p == "/d/rackviz.db.old"));
    let a = restore_step(&mut run, RestoreEvent::Exists(true));
    assert!(matches!(&a, RestoreAction::Copy(a, b) if a == "/d/rackviz.db.old" && b == "/d/rackviz.db"));
    let a = restore_step(&mut run, RestoreEvent::Done(Ok(())));
    assert!(matches!(&a, RestoreAction::RemoveQuietly(p) if p == "/d/rackviz.db.old"));
    let a = restore_step(&mut run, RestoreEvent::Done(Ok(())));
    assert!(matches!(&a, RestoreAction::Finish(Err(m)) if m == "disk full"));
}

#[test]
fn next_backup_is_an_automatic_backup_in_the_directory() {
    let p = next_auto_backup_path("/d/backups");
    assert!(p.starts_with("/d/backups/rackviz-auto-"));
    let name = &p["/d/backups/".len()..];
    assert!(is_auto_backup_name(name));
    assert_eq!(name.len(), "rackviz-auto-".len() + 15 + ".db".len());
}
