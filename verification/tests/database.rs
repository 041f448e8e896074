use glean_core::database::Database;
use glean_core::json::{Json, JsonMap};
use glean_core::metrics::{truncate_label, CommonMetricData, Lifetime};

fn metric(name: &str, category: &str, pings: &[&str], lifetime: Lifetime) -> CommonMetricData {
    CommonMetricData {
        name: name.to_string(),
        category: category.to_string(),
        send_in_pings: pings.iter().map(|p| p.to_string()).collect(),
        lifetime,
    }
}

fn counters(members: Vec<(&str, i64)>) -> Json {
    let mut inner = JsonMap::new();
    for (key, value) in members {
        inner.insert(key.to_string(), Json::Number(value));
    }
    let mut outer = JsonMap::new();
    outer.insert("counter".to_string(), Json::Object(inner));
    Json::Object(outer)
}

#[test]
fn identifier_joins_category_and_name() {
    let meta = metric("counter_metric", "telemetry", &["metrics"], Lifetime::Ping);
    assert_eq!(meta.identifier(), "telemetry.counter_metric");
    let labeled = metric("labeled/label", "telemetry", &["metrics"], Lifetime::Ping);
    assert_eq!(labeled.identifier(), "telemetry.labeled/label");
}

#[test]
fn truncate_label_cuts_at_the_first_slash() {
    assert_eq!(truncate_label("telemetry.labeled/label"), "telemetry.labeled");
    assert_eq!(truncate_label("telemetry.labeled/a/b"), "telemetry.labeled");
    assert_eq!(truncate_label("telemetry.plain"), "telemetry.plain");
    assert_eq!(truncate_label("/label"), "");
    assert_eq!(truncate_label("trailing/"), "trailing");
    assert_eq!(truncate_label(""), "");
    assert_eq!(truncate_label("métrique.é/ü"), "métrique.é");
}

#[test]
fn an_empty_store_has_empty_snapshots() {
    let store = Database::new();
    assert_eq!(store.snapshot("metrics"), Json::Object(JsonMap::new()));
    assert_eq!(store.get_counter("metrics", "a.b"), None);
}

#[test]
fn a_counter_starts_from_zero_and_accumulates() {
    let mut store = Database::new();
    let meta = metric("clicks", "ui", &["metrics", "baseline"], Lifetime::Ping);
    store.add_to_counter(&meta, 3);
    store.add_to_counter(&meta, 4);
    assert_eq!(store.get_counter("metrics", "ui.clicks"), Some(7));
    assert_eq!(store.get_counter("baseline", "ui.clicks"), Some(7));
    assert_eq!(store.get_counter("events", "ui.clicks"), None);
    assert_eq!(store.snapshot("baseline"), counters(vec![("ui.clicks", 7)]));
}

#[test]
fn a_counter_stays_in_its_range() {
    let mut store = Database::new();
    let meta = metric("clicks", "ui", &["metrics"], Lifetime::Ping);
    store.add_to_counter(&meta, i32::MAX);
    store.add_to_counter(&meta, 1);
    assert_eq!(store.get_counter("metrics", "ui.clicks"), Some(i32::MAX));
    store.add_to_counter(&meta, -1);
    assert_eq!(store.get_counter("metrics", "ui.clicks"), Some(i32::MAX - 1));

    let low = metric("low", "ui", &["metrics"], Lifetime::Ping);
    store.add_to_counter(&low, i32::MIN);
    store.add_to_counter(&low, -5);
    assert_eq!(store.get_counter("metrics", "ui.low"), Some(i32::MIN));
}

#[test]
fn a_snapshot_holds_the_counters_of_its_ping_only() {
    let mut store = Database::new();
    store.add_to_counter(&metric("a", "x", &["one", "two"], Lifetime::Ping), 1);
    store.add_to_counter(&metric("b", "x", &["two"], Lifetime::User), 2);
    store.add_to_counter(&metric("c", "x", &["three"], Lifetime::Application), 3);
    assert_eq!(store.snapshot("one"), counters(vec![("x.a", 1)]));
    assert_eq!(store.snapshot("two"), counters(vec![("x.a", 1), ("x.b", 2)]));
    assert_eq!(store.snapshot("three"), counters(vec![("x.c", 3)]));
    assert_eq!(store.snapshot("four"), Json::Object(JsonMap::new()));
}

#[test]
fn a_clearing_snapshot_drops_the_values_that_live_for_a_ping() {
    let mut store = Database::new();
    store.add_to_counter(&metric("a", "x", &["one", "two"], Lifetime::Ping), 1);
    store.add_to_counter(&metric("b", "x", &["one"], Lifetime::User), 2);
    store.add_to_counter(&metric("c", "x", &["one"], Lifetime::Application), 3);

    let kept = store.snapshot_as_json("one", false);
    assert_eq!(kept, counters(vec![("x.a", 1), ("x.b", 2), ("x.c", 3)]));
    assert_eq!(store.snapshot("one"), kept);

    let read = store.snapshot_as_json("one", true);
    assert_eq!(read, kept);
    assert_eq!(store.snapshot("one"), counters(vec![("x.b", 2), ("x.c", 3)]));
    assert_eq!(store.snapshot("two"), counters(vec![("x.a", 1)]));

    store.clear_ping_lifetime("two");
    assert_eq!(store.snapshot("two"), Json::Object(JsonMap::new()));
}

#[test]
fn sequence_numbers_count_up_for_each_ping() {
    let mut store = Database::new();
    assert_eq!(store.next_sequence("metrics"), 1);
    assert_eq!(store.next_sequence("metrics"), 2);
    assert_eq!(store.next_sequence("baseline"), 1);
    assert_eq!(store.next_sequence("metrics"), 3);
    assert_eq!(store.next_sequence("baseline"), 2);
}
