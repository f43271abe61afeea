use chronix::{Aggregation, BenchConfig, ConfigError};

#[test]
fn aggregation_names() {
    assert_eq!(Aggregation::from_name("min"), Some(Aggregation::Min));
    assert_eq!(Aggregation::from_name("median"), Some(Aggregation::Median));
    assert_eq!(Aggregation::from_name("p95"), Some(Aggregation::P95));
    assert_eq!(Aggregation::from_name("Median"), None);
    assert_eq!(Aggregation::from_name("p9"), None);
    assert_eq!(Aggregation::from_name(""), None);
    assert_eq!(Aggregation::from_name("medians"), None);
}

#[test]
fn options_take_defaults() {
    assert_eq!(BenchConfig::from_options(None, None, None, None), Ok(BenchConfig::default()));
    assert_eq!(
        BenchConfig::from_options(Some(12), Some(100), Some("median"), Some(true)),
        Ok(BenchConfig::new(12, 100, Aggregation::Median, true))
    );
    assert_eq!(
        BenchConfig::from_options(None, Some(3), Some("p95"), None),
        Ok(BenchConfig::new(1, 3, Aggregation::P95, false))
    );
}

#[test]
fn unknown_aggregation_refused() {
    assert_eq!(
        BenchConfig::from_options(Some(1), Some(1), Some("mean"), Some(false)),
        Err(ConfigError::UnknownAggregation)
    );
}
