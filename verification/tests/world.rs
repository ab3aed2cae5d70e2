use panarchy::world::{total_population, BookkeepingState, EntityId};

#[test]
fn entity_ids_expose_their_raw_number() {
    let id = EntityId(17);
    assert_eq!(id.raw(), 17);
    let mut ids = vec![EntityId(3), EntityId(1), EntityId(2)];
    ids.sort();
    assert_eq!(ids, vec![EntityId(1), EntityId(2), EntityId(3)]);
}

#[test]
fn starving_regions_deduplicate_in_order() {
    let mut bookkeeping = BookkeepingState::default();
    bookkeeping.note_starving("north".to_string());
    bookkeeping.note_starving("south".to_string());
    bookkeeping.note_starving("north".to_string());
    bookkeeping.dedup_starving();
    assert_eq!(bookkeeping.starving_regions, vec!["north", "south"]);

    bookkeeping.clear();
    assert!(bookkeeping.starving_regions.is_empty());
}

#[test]
fn starving_regions_finalize_sorted() {
    let mut bookkeeping = BookkeepingState::default();
    bookkeeping.note_starving("south".to_string());
    bookkeeping.note_starving("north".to_string());
    bookkeeping.note_starving("south".to_string());
    bookkeeping.finalize_starving();
    assert_eq!(bookkeeping.starving_regions, vec!["north", "south"]);
}

#[test]
fn population_totals_add_up() {
    assert_eq!(total_population(&vec![]), 0);
    assert_eq!(total_population(&vec![1, 2, 3]), 6);
    assert_eq!(total_population(&vec![50_000]), 50_000);
}
