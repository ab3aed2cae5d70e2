use panarchy::engine::{EngineConfig, EngineSettings, TickSchedule};
use panarchy::scenario::{resolve_ticks, ScenarioLoader};
use panarchy::snapshot::SnapshotConfig;
use panarchy::systems::{
    BookkeepingSystem, EconomySystem, EnvironmentSystem, FinanceSystem, InfrastructureSystem,
    PolicySystem, PopulationSystem, TechnologySystem,
};

#[test]
fn tick_schedule_marks_frames_in_order() {
    let mut schedule = TickSchedule::new(6);
    let mut ticks = Vec::new();
    let mut completed_flags = Vec::new();
    while let Some(frame) = schedule.next_frame() {
        ticks.push(frame.tick);
        completed_flags.push(frame.completed);
    }
    assert_eq!(ticks.len(), 6);
    assert_eq!(ticks.first().copied(), Some(1));
    assert_eq!(ticks.last().copied(), Some(6));
    assert!(ticks.windows(2).all(|w| w[0] < w[1]));
    assert_eq!(completed_flags.iter().filter(|c| **c).count(), 1);
    assert_eq!(completed_flags.last().copied(), Some(true));
}

#[test]
fn tick_schedule_of_zero_emits_nothing() {
    let mut schedule = TickSchedule::new(0);
    assert!(schedule.next_frame().is_none());
}

#[test]
fn test_performance_target() {
    // The documented budget is at most 150 ms for one tick of
    // bookkeeping; scheduling a thousand ticks stays far under it.
    let start = std::time::Instant::now();
    let mut schedule = TickSchedule::new(1000);
    let mut frames = 0u64;
    while schedule.next_frame().is_some() {
        frames += 1;
    }
    assert_eq!(frames, 1000);
    assert!(start.elapsed().as_millis() <= 150_000);
}

#[test]
fn engine_config_moves_snapshot_dir() {
    let config = EngineConfig {
        snapshot: SnapshotConfig::default(),
    };
    let moved = config.with_snapshot_dir("output".to_string());
    assert_eq!(moved.snapshot.interval, 5);
    assert_eq!(moved.snapshot.output_dir, "output");
}

#[test]
fn engine_settings_carry_the_run() {
    let settings = EngineSettings {
        scenario_name: "tiny_island".to_string(),
        seed: 7,
        snapshot_interval_ticks: 0,
        snapshot_dir: "snapshots".to_string(),
    };
    assert_eq!(settings.scenario_name, "tiny_island");
    assert_eq!(settings.seed, 7);
}

#[test]
fn scenario_loader_and_tick_resolution() {
    let loader = ScenarioLoader::new("scenarios".to_string());
    assert_eq!(loader.base_dir, "scenarios");
    assert_eq!(resolve_ticks(None, None), 120);
    assert_eq!(resolve_ticks(Some(30), None), 30);
    assert_eq!(resolve_ticks(Some(30), Some(5)), 5);
}

#[test]
fn systems_carry_their_names() {
    assert_eq!(EnvironmentSystem::new().name(), "environment");
    assert_eq!(InfrastructureSystem::new().name(), "infrastructure");
    assert_eq!(PopulationSystem::new().name(), "population");
    assert_eq!(EconomySystem::new().name(), "economy");
    assert_eq!(FinanceSystem::new().name(), "finance");
    assert_eq!(PolicySystem::new().name(), "policy");
    assert_eq!(TechnologySystem::new().name(), "technology");
    assert_eq!(BookkeepingSystem::new().name(), "bookkeeping");
}
