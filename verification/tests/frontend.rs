use std::sync::Arc;

use rapidlog::queue::SpscConsumer;
use rapidlog::{Frontend, Logger, NullSink, Sink};

#[test]
fn create_or_get_creates_logger() {
    let mut registry: Vec<Arc<Logger>> = Vec::new();
    let sinks: Vec<Arc<dyn Sink>> = vec![Arc::new(NullSink)];
    let logger = Frontend::create_or_get_logger(&mut registry, "frontend_test", sinks);
    assert_eq!(logger.name, "frontend_test");
    assert_eq!(logger.sinks.len(), 1);
}

#[test]
fn create_or_get_returns_same() {
    let mut registry: Vec<Arc<Logger>> = Vec::new();
    let a = Frontend::create_or_get_logger(&mut registry, "shared", vec![]);
    let b = Frontend::create_or_get_logger(&mut registry, "shared", vec![]);
    assert!(Arc::ptr_eq(&a, &b));
}

#[test]
fn preallocate_does_not_panic() {
    let mut registry: Vec<SpscConsumer> = Vec::new();
    let _ctx = Frontend::preallocate(&mut registry);
    assert_eq!(registry.len(), 1);
}

#[test]
fn different_names_give_different_loggers() {
    let mut registry: Vec<Arc<Logger>> = Vec::new();
    let a = Frontend::create_or_get_logger(&mut registry, "a", vec![]);
    let b = Frontend::create_or_get_logger(&mut registry, "b", vec![]);
    let a2 = Frontend::create_or_get_logger(&mut registry, "a", vec![Arc::new(NullSink)]);
    assert!(!Arc::ptr_eq(&a, &b));
    assert!(Arc::ptr_eq(&a, &a2));
    assert_eq!(a2.sinks.len(), 0);
    assert_eq!(registry.len(), 2);
}

#[test]
fn logger_level_defaults_to_info_and_changes() {
    let logger = Logger::new("lvl".to_string(), vec![]);
    assert_eq!(logger.log_level(), rapidlog::LogLevel::Info);
    logger.set_log_level(rapidlog::LogLevel::Error);
    assert_eq!(logger.log_level(), rapidlog::LogLevel::Error);
    logger.add_filter(Arc::new(rapidlog::LevelFilter::new(rapidlog::LogLevel::Warning)));
    assert_eq!(logger.filters_snapshot().len(), 1);
    logger.clear_filters();
    assert!(logger.filters_snapshot().is_empty());
}
