use panarchy::config::{
    clean_string, parse_u32, parse_u64, validate_world_refs, Config, LoggingConfig, ScenarioError,
};

#[test]
fn test_tiny_island_config() {
    let config = Config::tiny_island();

    assert_eq!(config.name, "tiny_island");
    assert_eq!(config.random_seed, 7);
    assert_eq!(config.spatial.width_tiles, 128);
    assert_eq!(config.spatial.height_tiles, 64);
    assert_eq!(config.population.persons, 50_000);
}

#[test]
fn test_config_loading() {
    // Field values are read out of a scenario text line by line.
    assert_eq!(parse_u64(" 42 ").unwrap(), 42);
    assert_eq!(clean_string(" \"island\" "), "island");
    let config = Config::tiny_island();
    assert_eq!(config.snapshot.every_ticks, 30);
    assert_eq!(config.logging.level, "info");
}

#[test]
fn parse_u64_accepts_plus_and_trims() {
    assert_eq!(parse_u64("+7").unwrap(), 7);
    assert_eq!(parse_u64("\t18446744073709551615\n").unwrap(), u64::MAX);
    assert_eq!(parse_u64("0").unwrap(), 0);
}

#[test]
fn parse_u64_rejects_bad_input() {
    assert!(matches!(parse_u64(""), Err(ScenarioError::Parse(_))));
    assert!(matches!(parse_u64("+"), Err(ScenarioError::Parse(_))));
    assert!(matches!(parse_u64("12a"), Err(ScenarioError::Parse(_))));
    assert!(matches!(parse_u64("-3"), Err(ScenarioError::Parse(_))));
    assert!(matches!(
        parse_u64("18446744073709551616"),
        Err(ScenarioError::Parse(_))
    ));
}

#[test]
fn parse_u32_respects_its_bound() {
    assert_eq!(parse_u32("4294967295").unwrap(), u32::MAX);
    assert!(matches!(
        parse_u32("4294967296"),
        Err(ScenarioError::Parse(_))
    ));
}

#[test]
fn clean_string_strips_one_quote_pair() {
    assert_eq!(clean_string("plain"), "plain");
    assert_eq!(clean_string("  spaced  "), "spaced");
    assert_eq!(clean_string("\"quoted\""), "quoted");
    assert_eq!(clean_string("\""), "\"");
}

#[test]
fn logging_config_default_values() {
    let logging = LoggingConfig::default();
    assert_eq!(logging.level, "info");
    assert_eq!(logging.kpi_interval_days, 30);
}

#[test]
fn world_refs_validate() {
    let tiles = vec![1, 2, 3];
    let pop_tiles = vec![1, 3];
    let pop_counts = vec![10, 0];
    assert!(validate_world_refs(&tiles, &pop_tiles, &pop_counts).is_ok());
}

#[test]
fn world_refs_reject_inconsistencies() {
    let err = validate_world_refs(&vec![], &vec![1], &vec![1]);
    assert!(matches!(err, Err(ScenarioError::Validation(_))));

    let err = validate_world_refs(&vec![1, 1], &vec![1], &vec![1]);
    assert!(matches!(err, Err(ScenarioError::Validation(_))));

    let err = validate_world_refs(&vec![1], &vec![], &vec![]);
    assert!(matches!(err, Err(ScenarioError::Validation(_))));

    let err = validate_world_refs(&vec![1], &vec![2], &vec![5]);
    assert!(matches!(err, Err(ScenarioError::Validation(_))));

    let err = validate_world_refs(&vec![1], &vec![1], &vec![0]);
    assert!(matches!(err, Err(ScenarioError::Validation(_))));
}
