use panarchy::systems::{BookkeepingMetrics, BookkeepingSystem, PolicySystem, PopulationSystem};

#[test]
fn vital_update_applies_net_change() {
    let (citizens, employed) = PopulationSystem::apply_vital_update(1000, 5, 800);
    assert_eq!(citizens, 1005);
    assert_eq!(employed, 800);
}

#[test]
fn vital_update_floors_population_at_zero() {
    let (citizens, employed) = PopulationSystem::apply_vital_update(10, -20, 5);
    assert_eq!(citizens, 0);
    assert_eq!(employed, 0);
}

#[test]
fn vital_update_keeps_employment_within_population() {
    let (citizens, employed) = PopulationSystem::apply_vital_update(10, 0, 50);
    assert_eq!(citizens, 10);
    assert_eq!(employed, 10);

    let (citizens, employed) = PopulationSystem::apply_vital_update(10, -3, 50);
    assert_eq!(citizens, 7);
    assert_eq!(employed, 7);

    let (_, employed) = PopulationSystem::apply_vital_update(10, 0, -4);
    assert_eq!(employed, 0);
}

#[test]
fn policy_skips_empty_regions() {
    assert!(!PolicySystem::acts_on(0));
    assert!(PolicySystem::acts_on(1));
}

#[test]
fn bookkeeping_records_latest_metrics() {
    let mut bookkeeping = BookkeepingSystem::new();
    assert_eq!(bookkeeping.system_id(), 999);
    assert!(bookkeeping.latest_metrics().is_none());

    bookkeeping.record(50_000, 3);
    assert_eq!(
        bookkeeping.latest_metrics(),
        Some(BookkeepingMetrics {
            total_population: 50_000,
            tick: 3
        })
    );
}
