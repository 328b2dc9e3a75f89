use rackviz::migration::{backfilled_height, has_duplicate_names, ids_losing_key, migration_plan, CURRENT_VERSION};

#[test]
fn plans_lead_to_the_current_version() {
    assert_eq!(migration_plan(0), (vec![1, 2, 3, 4], false));
    assert_eq!(migration_plan(2), (vec![3, 4], false));
    assert_eq!(migration_plan(CURRENT_VERSION), (vec![], false));
    assert_eq!(migration_plan(7), (vec![], true));
    assert_eq!(migration_plan(-1), (vec![], true));
}

#[test]
fn duplicate_serials_keep_the_earliest() {
    let rows = vec![(1, "SN-X".to_string()), (2, "SN-X".to_string()), (3, "SN-Y".to_string()), (4, "".to_string()),
        (5, "".to_string())];
    assert_eq!(ids_losing_key(&rows), vec![2]);
    let unordered = vec![(9, "A".to_string()), (3, "A".to_string()), (5, "A".to_string())];
    assert_eq!(ids_losing_key(&unordered), vec![9, 5]);
}

#[test]
fn duplicate_names_skip_the_unique_index() {
    let names = |v: &[&str]| v.iter().map(|s| s.to_string()).collect::<Vec<String>>();
    assert!(has_duplicate_names(&names(&["A", "B", "A"])));
    assert!(!has_duplicate_names(&names(&["A", "B", "", ""])));
    assert!(!has_duplicate_names(&names(&[])));
}

#[test]
fn heights_backfilled_from_span_then_model() {
    assert_eq!(backfilled_height(Some(5), Some(7), None), 3);
    assert_eq!(backfilled_height(None, None, Some(4)), 4);
    assert_eq!(backfilled_height(None, None, None), 1);
    assert_eq!(backfilled_height(Some(7), Some(5), Some(2)), 2);
    assert_eq!(backfilled_height(Some(i32::MIN), Some(i32::MAX), None), 4294967296);
}

#[test]
fn test_v3_to_v4_backfills_device_height() {
    // A racked multi-slot device without a model, a pool device with a 4U
    // model, and a pool device without a model.
    let a = backfilled_height(Some(5), Some(7), None);
    let b = backfilled_height(None, None, Some(4));
    let c = backfilled_height(None, None, None);
    assert_eq!((a, b, c), (3, 4, 1));
    assert_eq!(migration_plan(3), (vec![4], false));
}

#[test]
fn test_duplicate_serial_cleaned_before_unique_index() {
    let rows = vec![(1, "SN-X".to_string()), (2, "SN-X".to_string()), (3, "SN-Y".to_string())];
    let cleared = ids_losing_key(&rows);
    assert_eq!(cleared, vec![2]);
    let after: Vec<String> =
        rows.iter().map(|(id, sn)| if cleared.contains(id) { String::new() } else { sn.clone() }).collect();
    assert_eq!(after, vec!["SN-X".to_string(), "".to_string(), "SN-Y".to_string()]);
}
