use neosurv::saves::scene_files::{check_scene_file_version, scene_file_name, validate_scene_id, SceneIdError};
use neosurv::saves::scene_ids::{assign_scene_ids, first_repeated_id, generated_entity_name, order_by_id};
use std::collections::HashSet;

#[test]
fn generated_ids_skip_reserved_and_duplicates() {
    // entities: "first" carries 1, "duplicate" carries 1, "other" carries 2, one carries none
    let entries = vec![Some(1u64), Some(1), Some(2), None];
    let assigned = assign_scene_ids(&entries);
    let order = order_by_id(&assigned);
    let ids: Vec<u64> = order.iter().map(|&k| assigned[k]).collect();
    let unique: HashSet<u64> = ids.iter().copied().collect();

    assert_eq!(ids.len(), 4);
    assert_eq!(unique.len(), 4);
    assert_eq!(ids, vec![1, 2, 3, 4]);
}

#[test]
fn generated_ids_wrap_after_u64_max_without_collision() {
    let entries = vec![Some(u64::MAX), None];
    let assigned = assign_scene_ids(&entries);
    let ids: HashSet<u64> = assigned.iter().copied().collect();

    assert_eq!(ids.len(), 2);
    assert!(ids.contains(&u64::MAX));
    assert!(ids.contains(&0));
}

#[test]
fn first_carrier_keeps_its_id_and_others_get_fresh_ones() {
    let entries = vec![None, Some(5u64), Some(5), Some(3), None];
    let assigned = assign_scene_ids(&entries);
    assert_eq!(assigned, vec![6, 5, 7, 3, 8]);
    assert_eq!(order_by_id(&assigned), vec![3, 1, 0, 2, 4]);
}

#[test]
fn order_by_id_keeps_ties_in_place() {
    assert_eq!(order_by_id(&vec![4, 1, 4, 0]), vec![3, 1, 0, 2]);
}

#[test]
fn scene_slot_names() {
    assert_eq!(validate_scene_id("quick_save-2"), Ok(()));
    assert_eq!(validate_scene_id(""), Err(SceneIdError::Empty));
    assert_eq!(validate_scene_id("../etc"), Err(SceneIdError::InvalidCharacters));
    assert_eq!(validate_scene_id("ümlaut"), Err(SceneIdError::InvalidCharacters));
    assert_eq!(scene_file_name("default"), Ok("default.ron".to_string()));
    assert_eq!(scene_file_name("a b"), Err(SceneIdError::InvalidCharacters));
    assert_eq!(
        SceneIdError::InvalidCharacters.message("a b"),
        "invalid scene slot id 'a b': only [A-Za-z0-9_-] are allowed"
    );
    assert_eq!(SceneIdError::Empty.message(""), "scene slot id must not be empty");
}

#[test]
fn scene_file_versions() {
    assert_eq!(check_scene_file_version(1), Ok(()));
    let err = check_scene_file_version(2).unwrap_err();
    assert!(err.contains("unsupported scene file version"));
    assert!(err.contains("2"));
    assert_eq!(err, "unsupported scene file version 2 (expected 1)");
}

#[test]
fn scene_with_duplicate_ids_is_refused() {
    assert_eq!(first_repeated_id(&vec![3, 7, 9]), None);
    assert_eq!(first_repeated_id(&vec![]), None);
    assert_eq!(first_repeated_id(&vec![3, 7, 7, 3]), Some(7));
    assert_eq!(first_repeated_id(&vec![5, 1, 5, 1]), Some(5));
}

#[test]
fn unnamed_entities_are_named_after_their_id() {
    assert_eq!(generated_entity_name(4), "entity_4");
    assert_eq!(generated_entity_name(0), "entity_0");
    assert_eq!(generated_entity_name(u64::MAX), "entity_18446744073709551615");
}
