use panarchy::technology::{definition, next_available, tech_tree, unlock};

#[test]
fn catalog_lists_four_technologies() {
    let catalog = tech_tree();
    assert_eq!(catalog.len(), 4);
    assert_eq!(catalog[0].id, "adaptive_farming");
    assert_eq!(catalog[0].difficulty, 12000);
    assert_eq!(catalog[0].food_multiplier_pct, 108);
    assert_eq!(catalog[3].id, "circular_economy");
    assert_eq!(catalog[3].prerequisites, vec![1, 2]);
}

#[test]
fn next_available_follows_catalog_order() {
    let catalog = tech_tree();
    assert_eq!(next_available(&catalog, &vec![]), Some(0));
    assert_eq!(next_available(&catalog, &vec![0]), Some(1));
    assert_eq!(next_available(&catalog, &vec![0, 1]), Some(2));
    assert_eq!(next_available(&catalog, &vec![0, 1, 2]), Some(3));
    assert_eq!(next_available(&catalog, &vec![0, 1, 2, 3]), None);
}

#[test]
fn next_available_waits_for_prerequisites() {
    let catalog = tech_tree();
    // Both grid_storage and automation_lines are needed before
    // circular_economy becomes available.
    assert_eq!(next_available(&catalog, &vec![0, 2]), Some(1));
    assert_eq!(next_available(&catalog, &vec![0, 1, 3]), Some(2));
}

#[test]
fn definitions_are_found_by_id() {
    let catalog = tech_tree();
    let def = definition(&catalog, "grid_storage").unwrap();
    assert_eq!(def.difficulty, 16000);
    assert_eq!(def.energy_multiplier_pct, 112);
    assert!(definition(&catalog, "cold_fusion").is_none());
}

#[test]
fn unlock_never_duplicates() {
    let mut unlocked: Vec<usize> = vec![];
    unlock(&mut unlocked, 2);
    unlock(&mut unlocked, 0);
    unlock(&mut unlocked, 2);
    assert_eq!(unlocked, vec![2, 0]);
}
