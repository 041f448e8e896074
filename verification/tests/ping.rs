use glean_core::database::Database;
use glean_core::encode::to_string_pretty;
use glean_core::error_recording::{record_error, ErrorType};
use glean_core::json::{Json, JsonMap};
use glean_core::metrics::{CommonMetricData, Lifetime};
use glean_core::ping::{
    collect, collect_string, get_client_info, get_ping_info, get_ping_seq,
    END_TIME, GLEAN_VERSION, START_TIME,
};

fn metric(name: &str, category: &str, pings: &[&str], lifetime: Lifetime) -> CommonMetricData {
    CommonMetricData {
        name: name.to_string(),
        category: category.to_string(),
        send_in_pings: pings.iter().map(|p| p.to_string()).collect(),
        lifetime,
    }
}

fn object(members: Vec<(&str, Json)>) -> Json {
    let mut map = JsonMap::new();
    for (key, value) in members {
        map.insert(key.to_string(), value);
    }
    Json::Object(map)
}

fn text(s: &str) -> Json {
    Json::String(s.to_string())
}

fn ping_info(name: &str, seq: i64) -> Json {
    object(vec![
        ("ping_type", text(name)),
        ("seq", Json::Number(seq)),
        ("start_time", text("2019-03-29T09:50-04:00")),
        ("end_time", text("2019-03-29T09:53-04:00")),
    ])
}

fn to_value(json: &Json) -> serde_json::Value {
    match json {
        Json::Null => serde_json::Value::Null,
        Json::Bool(b) => serde_json::Value::Bool(*b),
        Json::Number(n) => serde_json::Value::from(*n),
        Json::String(s) => serde_json::Value::String(s.clone()),
        Json::Array(items) => serde_json::Value::Array(items.iter().map(to_value).collect()),
        Json::Object(members) => {
            let mut map = serde_json::Map::new();
            let mut i = 0;
            while let Some((key, value)) = members.entry(i) {
                map.insert(key.clone(), to_value(value));
                i += 1;
            }
            serde_json::Value::Object(map)
        }
    }
}

#[test]
fn the_times_of_a_ping_carry_an_offset() {
    assert_eq!(START_TIME, "2019-03-29T09:50-04:00");
    assert_eq!(END_TIME, "2019-03-29T09:53-04:00");
    assert_eq!(GLEAN_VERSION, "0.1.0");
}

#[test]
fn collect_on_an_empty_store() {
    let mut store = Database::new();
    let ping = collect(&mut store, "metrics");
    let expected = object(vec![
        ("ping_info", ping_info("metrics", 1)),
        ("client_info", object(vec![("telemetry_sdk_build", text("0.1.0"))])),
        ("metrics", object(vec![])),
    ]);
    assert_eq!(ping, expected);
    match &ping {
        Json::Object(members) => {
            assert_eq!(members.len(), 3);
            assert!(members.get("ping_info").is_some());
            assert!(members.get("client_info").is_some());
            assert_eq!(members.get("metrics"), Some(&Json::Object(JsonMap::new())));
        }
        other => panic!("not an object: {:?}", other),
    }
}

#[test]
fn collect_holds_the_metrics_of_the_ping() {
    let mut store = Database::new();
    store.add_to_counter(&metric("clicks", "ui", &["metrics", "baseline"], Lifetime::Ping), 5);
    store.add_to_counter(&metric("starts", "app", &["metrics"], Lifetime::User), 2);
    store.add_to_counter(&metric("other", "app", &["events"], Lifetime::Ping), 9);
    let ping = collect(&mut store, "metrics");
    let expected = object(vec![
        ("ping_info", ping_info("metrics", 1)),
        ("client_info", object(vec![("telemetry_sdk_build", text("0.1.0"))])),
        (
            "metrics",
            object(vec![(
                "counter",
                object(vec![("ui.clicks", Json::Number(5)), ("app.starts", Json::Number(2))]),
            )]),
        ),
    ]);
    assert_eq!(ping, expected);
}

#[test]
fn collect_takes_the_values_that_live_for_a_ping() {
    let mut store = Database::new();
    store.add_to_counter(&metric("clicks", "ui", &["metrics", "baseline"], Lifetime::Ping), 5);
    store.add_to_counter(&metric("starts", "app", &["metrics"], Lifetime::User), 2);
    collect(&mut store, "metrics");
    assert_eq!(store.get_counter("metrics", "ui.clicks"), None);
    assert_eq!(store.get_counter("baseline", "ui.clicks"), Some(5));
    assert_eq!(store.get_counter("metrics", "app.starts"), Some(2));

    let second = collect(&mut store, "metrics");
    let expected = object(vec![
        ("ping_info", ping_info("metrics", 2)),
        ("client_info", object(vec![("telemetry_sdk_build", text("0.1.0"))])),
        ("metrics", object(vec![("counter", object(vec![("app.starts", Json::Number(2))]))])),
    ]);
    assert_eq!(second, expected);
}

#[test]
fn collect_holds_recorded_errors() {
    let mut store = Database::new();
    let meta = metric("counter_metric", "telemetry", &["store1"], Lifetime::Application);
    record_error(&mut store, &meta, ErrorType::InvalidValue, "msg");
    let ping = collect(&mut store, "metrics");
    let metrics = match &ping {
        Json::Object(members) => members.get("metrics").cloned(),
        _ => None,
    };
    assert_eq!(
        metrics,
        Some(object(vec![(
            "counter",
            object(vec![("glean.error.invalid_value/telemetry.counter_metric", Json::Number(1))]),
        )]))
    );
    // The error counter lives for a ping: it is gone from the ping that was collected.
    assert_eq!(
        store.get_counter("metrics", "glean.error.invalid_value/telemetry.counter_metric"),
        None
    );
    assert_eq!(
        store.get_counter("store1", "glean.error.invalid_value/telemetry.counter_metric"),
        Some(1)
    );
}

#[test]
fn sequence_numbers_of_a_ping_increase() {
    let mut store = Database::new();
    assert_eq!(get_ping_seq(&mut store, "metrics"), 1);
    assert_eq!(get_ping_seq(&mut store, "metrics"), 2);
    assert_eq!(get_ping_seq(&mut store, "baseline"), 1);
    assert_eq!(get_ping_info(&mut store, "metrics"), ping_info("metrics", 3));
    assert_eq!(get_ping_info(&mut store, "baseline"), ping_info("baseline", 2));
}

#[test]
fn client_info_is_flat() {
    let mut store = Database::new();
    store.add_to_counter(
        &metric("launches", "client", &["glean_client_info"], Lifetime::Application),
        3,
    );
    store.add_to_counter(&metric("crashes", "client", &["glean_client_info"], Lifetime::Ping), 1);
    store.add_to_counter(&metric("clicks", "ui", &["metrics"], Lifetime::Ping), 5);
    let expected = object(vec![
        ("telemetry_sdk_build", text("0.1.0")),
        ("client.launches", Json::Number(3)),
        ("client.crashes", Json::Number(1)),
    ]);
    assert_eq!(get_client_info(&store), expected);
    // Reading the client's values does not reset them.
    assert_eq!(get_client_info(&store), expected);
    assert_eq!(store.get_counter("glean_client_info", "client.crashes"), Some(1));
}

#[test]
fn client_info_of_an_empty_store_holds_the_version() {
    let store = Database::new();
    assert_eq!(get_client_info(&store), object(vec![("telemetry_sdk_build", text("0.1.0"))]));
}

#[test]
fn collecting_the_client_info_ping_reads_its_values_once() {
    let mut store = Database::new();
    store.add_to_counter(&metric("crashes", "client", &["glean_client_info"], Lifetime::Ping), 1);
    store.add_to_counter(&metric("launches", "client", &["glean_client_info"], Lifetime::User), 3);
    let ping = collect(&mut store, "glean_client_info");
    let expected = object(vec![
        ("ping_info", ping_info("glean_client_info", 1)),
        (
            "client_info",
            object(vec![("telemetry_sdk_build", text("0.1.0")), ("client.launches", Json::Number(3))]),
        ),
        (
            "metrics",
            object(vec![(
                "counter",
                object(vec![("client.crashes", Json::Number(1)), ("client.launches", Json::Number(3))]),
            )]),
        ),
    ]);
    assert_eq!(ping, expected);
}

#[test]
fn pretty_text_is_indented_by_two_spaces() {
    let tree = object(vec![("a", Json::Number(1))]);
    assert_eq!(to_string_pretty(&tree), Ok("{\n  \"a\": 1\n}".to_string()));
    assert_eq!(to_string_pretty(&Json::Null), Ok("null".to_string()));
    assert_eq!(to_string_pretty(&object(vec![])), Ok("{}".to_string()));
    assert_eq!(
        to_string_pretty(&Json::Array(vec![Json::Bool(true), Json::Number(-3), text("x\"y")])),
        Ok("[\n  true,\n  -3,\n  \"x\\\"y\"\n]".to_string())
    );
}

#[test]
fn pretty_text_writes_members_in_the_order_of_their_keys() {
    let one = object(vec![("b", Json::Number(2)), ("a", Json::Number(1))]);
    let other = object(vec![("a", Json::Number(1)), ("b", Json::Number(2))]);
    let expected = "{\n  \"a\": 1,\n  \"b\": 2\n}".to_string();
    assert_eq!(to_string_pretty(&one), Ok(expected.clone()));
    assert_eq!(to_string_pretty(&other), Ok(expected));
}

#[test]
fn pretty_text_reads_back_as_the_same_tree() {
    let tree = object(vec![
        ("null", Json::Null),
        ("flag", Json::Bool(false)),
        ("least", Json::Number(i64::MIN)),
        ("most", Json::Number(i64::MAX)),
        ("text", text("line\nbreak \u{e9}")),
        ("list", Json::Array(vec![Json::Number(1), object(vec![("k", Json::Array(vec![]))])])),
        ("nested", object(vec![("inner", object(vec![("x", Json::Number(0))]))])),
    ]);
    let printed = to_string_pretty(&tree).unwrap();
    let read: serde_json::Value = serde_json::from_str(&printed).unwrap();
    assert_eq!(read, to_value(&tree));
}

#[test]
fn collect_string_is_the_collected_ping_as_text() {
    let mut store = Database::new();
    store.add_to_counter(&metric("clicks", "ui", &["metrics"], Lifetime::Ping), 5);
    let printed = collect_string(&mut store, "metrics").unwrap();
    let expected = "{\n  \"client_info\": {\n    \"telemetry_sdk_build\": \"0.1.0\"\n  },\n  \"metrics\": {\n    \"counter\": {\n      \"ui.clicks\": 5\n    }\n  },\n  \"ping_info\": {\n    \"end_time\": \"2019-03-29T09:53-04:00\",\n    \"ping_type\": \"metrics\",\n    \"seq\": 1,\n    \"start_time\": \"2019-03-29T09:50-04:00\"\n  }\n}";
    assert_eq!(printed, expected);
    // The values were taken, and the next ping has the next number.
    assert_eq!(store.get_counter("metrics", "ui.clicks"), None);
    let next: serde_json::Value =
        serde_json::from_str(&collect_string(&mut store, "metrics").unwrap()).unwrap();
    assert_eq!(next["ping_info"]["seq"], serde_json::Value::from(2));
    assert_eq!(next["metrics"], serde_json::Value::Object(serde_json::Map::new()));
}
