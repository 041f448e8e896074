use glean_core::database::Database;
use glean_core::error_recording::{error_metric, get_num_recorded_errors, record_error, ErrorType};
use glean_core::json::{Json, JsonMap};
use glean_core::metrics::{CommonMetricData, Lifetime};

fn metric(name: &str, category: &str, pings: &[&str]) -> CommonMetricData {
    CommonMetricData {
        name: name.to_string(),
        category: category.to_string(),
        send_in_pings: pings.iter().map(|p| p.to_string()).collect(),
        lifetime: Lifetime::Application,
    }
}

fn counters(members: Vec<(&str, i64)>) -> Json {
    let mut inner = JsonMap::new();
    for (key, value) in members {
        inner.insert(key.to_string(), Json::Number(value));
    }
    let mut outer = JsonMap::new();
    outer.insert("counter".to_string(), Json::Object(inner));
    Json::Object(outer)
}

#[test]
fn a_metric_that_names_nothing() {
    let meta = CommonMetricData::default();
    assert_eq!(meta.name, "");
    assert_eq!(meta.category, "");
    assert!(meta.send_in_pings.is_empty());
    assert_eq!(meta.lifetime, Lifetime::Ping);
    assert_eq!(Lifetime::default(), Lifetime::Ping);
    let named = CommonMetricData {
        name: "clicks".to_string(),
        category: "ui".to_string(),
        send_in_pings: vec!["metrics".to_string()],
        ..Default::default()
    };
    assert_eq!(named.identifier(), "ui.clicks");
    assert_eq!(named.clone().send_in_pings, vec!["metrics".to_string()]);
}

#[test]
fn error_tokens() {
    assert_eq!(ErrorType::InvalidValue.to_string(), "invalid_value");
    assert_eq!(ErrorType::InvalidLabel.to_string(), "invalid_label");
}

#[test]
fn recording_an_error_counts_it_once() {
    let mut glean = Database::new();
    let meta = metric("counter_metric", "telemetry", &["metrics"]);
    record_error(&mut glean, &meta, ErrorType::InvalidValue, "msg");
    assert_eq!(get_num_recorded_errors(&glean, &meta, ErrorType::InvalidValue), Ok(1));
    assert_eq!(
        glean.get_counter("metrics", "glean.error.invalid_value/telemetry.counter_metric"),
        Some(1)
    );
    assert_eq!(
        glean.snapshot("metrics"),
        counters(vec![("glean.error.invalid_value/telemetry.counter_metric", 1)])
    );
}

#[test]
fn recording_an_error_reaches_the_pings_of_the_metric_and_the_metrics_ping() {
    let mut glean = Database::new();
    let meta = metric("counter_metric", "telemetry", &["store1", "store2"]);
    record_error(&mut glean, &meta, ErrorType::InvalidLabel, "msg");
    let id = "glean.error.invalid_label/telemetry.counter_metric";
    assert_eq!(glean.get_counter("store1", id), Some(1));
    assert_eq!(glean.get_counter("store2", id), Some(1));
    assert_eq!(glean.get_counter("metrics", id), Some(1));
    assert_eq!(glean.get_counter("baseline", id), None);
    assert_eq!(glean.get_counter("metrics", "telemetry.counter_metric"), None);
    assert_eq!(get_num_recorded_errors(&glean, &meta, ErrorType::InvalidLabel), Ok(1));
}

#[test]
fn recording_the_same_error_twice_counts_two() {
    let mut glean = Database::new();
    let meta = metric("counter_metric", "telemetry", &["store1", "metrics"]);
    record_error(&mut glean, &meta, ErrorType::InvalidValue, "first");
    record_error(&mut glean, &meta, ErrorType::InvalidValue, "second");
    assert_eq!(get_num_recorded_errors(&glean, &meta, ErrorType::InvalidValue), Ok(2));
    let id = "glean.error.invalid_value/telemetry.counter_metric";
    assert_eq!(glean.get_counter("store1", id), Some(2));
    assert_eq!(glean.get_counter("metrics", id), Some(2));
}

#[test]
fn the_kinds_of_error_are_counted_apart() {
    let mut glean = Database::new();
    let meta = metric("counter_metric", "telemetry", &["metrics"]);
    record_error(&mut glean, &meta, ErrorType::InvalidValue, "msg");
    record_error(&mut glean, &meta, ErrorType::InvalidLabel, "msg");
    record_error(&mut glean, &meta, ErrorType::InvalidLabel, "msg");
    assert_eq!(get_num_recorded_errors(&glean, &meta, ErrorType::InvalidValue), Ok(1));
    assert_eq!(get_num_recorded_errors(&glean, &meta, ErrorType::InvalidLabel), Ok(2));
}

#[test]
fn an_error_on_a_labeled_metric_is_counted_for_the_metric() {
    let mut glean = Database::new();
    let one = metric("labeled_counter/first", "telemetry", &["store1"]);
    let other = metric("labeled_counter/second/third", "telemetry", &["store1"]);
    record_error(&mut glean, &one, ErrorType::InvalidLabel, "msg");
    record_error(&mut glean, &other, ErrorType::InvalidLabel, "msg");
    let id = "glean.error.invalid_label/telemetry.labeled_counter";
    assert_eq!(glean.get_counter("store1", id), Some(2));
    assert_eq!(glean.get_counter("metrics", id), Some(2));
    assert_eq!(get_num_recorded_errors(&glean, &one, ErrorType::InvalidLabel), Ok(2));
}

#[test]
fn the_metrics_ping_is_named_once() {
    let meta = metric("m", "c", &["metrics", "store1"]);
    let reserved = error_metric(&meta, ErrorType::InvalidValue);
    assert_eq!(reserved.send_in_pings, vec!["metrics".to_string(), "store1".to_string()]);

    let meta = metric("m", "c", &["store1"]);
    let reserved = error_metric(&meta, ErrorType::InvalidValue);
    assert_eq!(reserved.send_in_pings, vec!["store1".to_string(), "metrics".to_string()]);
    assert_eq!(reserved.name, "invalid_value/c.m");
    assert_eq!(reserved.category, "glean.error");
    assert_eq!(reserved.lifetime, Lifetime::Ping);
    assert_eq!(reserved.identifier(), "glean.error.invalid_value/c.m");

    let meta = metric("m", "c", &[]);
    let reserved = error_metric(&meta, ErrorType::InvalidLabel);
    assert_eq!(reserved.send_in_pings, vec!["metrics".to_string()]);
}

#[test]
fn a_ping_named_twice_is_counted_once() {
    let mut glean = Database::new();
    let meta = metric("m", "c", &["store1", "store1"]);
    record_error(&mut glean, &meta, ErrorType::InvalidValue, "msg");
    assert_eq!(glean.get_counter("store1", "glean.error.invalid_value/c.m"), Some(1));
}

#[test]
fn a_metric_without_errors_has_none_to_read() {
    let glean = Database::new();
    let meta = metric("counter_metric", "telemetry", &["store1"]);
    assert_eq!(
        get_num_recorded_errors(&glean, &meta, ErrorType::InvalidValue),
        Err("No error recorded for glean.error.invalid_value/telemetry.counter_metric in store1"
            .to_string())
    );
}

#[test]
fn the_line_for_the_log_names_the_metric_and_the_message() {
    let mut glean = Database::new();
    let meta = metric("labeled/one", "telemetry", &["metrics"]);
    let line = record_error(&mut glean, &meta, ErrorType::InvalidLabel, "label too long");
    assert_eq!(line, "telemetry.labeled/one: label too long");
}

#[test]
fn errors_are_read_in_the_first_ping_of_the_counter() {
    let mut glean = Database::new();
    let meta = metric("m", "c", &["store1", "store2"]);
    record_error(&mut glean, &meta, ErrorType::InvalidValue, "msg");
    // Reading the first ping for collection resets the counter there and nowhere else.
    glean.snapshot_as_json("store1", true);
    assert!(get_num_recorded_errors(&glean, &meta, ErrorType::InvalidValue).is_err());
    assert_eq!(glean.get_counter("store2", "glean.error.invalid_value/c.m"), Some(1));
}
