use panarchy::snapshot::{tick_file_name, SnapshotConfig, SnapshotManager};

#[test]
fn cadence_fires_on_whole_multiples_only() {
    let config = SnapshotConfig {
        interval: 10,
        output_dir: "snapshots".to_string(),
    };
    let manager = SnapshotManager::new(config);

    assert!(!manager.should_snapshot(0));
    assert!(!manager.should_snapshot(9));
    assert!(manager.should_snapshot(10));
    assert!(!manager.should_snapshot(11));
    assert!(manager.should_snapshot(20));
}

#[test]
fn cadence_zero_interval_never_fires() {
    let config = SnapshotConfig {
        interval: 0,
        output_dir: "snapshots".to_string(),
    };
    let manager = SnapshotManager::new(config);
    assert!(!manager.should_snapshot(0));
    assert!(!manager.should_snapshot(1));
    assert!(!manager.should_snapshot(100));
}

#[test]
fn tick_file_names_are_zero_padded() {
    assert_eq!(tick_file_name(0), "tick_000000.json");
    assert_eq!(tick_file_name(10), "tick_000010.json");
    assert_eq!(tick_file_name(999999), "tick_999999.json");
    assert_eq!(tick_file_name(1234567), "tick_1234567.json");
}

#[test]
fn snapshot_config_builder_keeps_interval() {
    let config = SnapshotConfig::default();
    assert_eq!(config.interval, 5);
    assert_eq!(config.output_dir, "snapshots");
    let moved = config.with_output_dir("elsewhere".to_string());
    assert_eq!(moved.interval, 5);
    assert_eq!(moved.output_dir, "elsewhere");
}

#[test]
fn manager_names_snapshot_files() {
    let manager = SnapshotManager::new(SnapshotConfig::default());
    assert_eq!(manager.snapshot_file_name(30), "tick_000030.json");
}
