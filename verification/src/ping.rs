//! The assembly of a ping from what the store holds.

use crate::database::{counters_of, following, Database, DatabaseView};
use crate::encode::{pretty_text, to_string_pretty, EncodeError};
use crate::json::{merge, merged, Json, JsonMap, JsonView};
use vstd::prelude::*;

verus! {

/// The version of this library, which every ping carries.
pub const GLEAN_VERSION: &'static str = "0.1.0";

/// The start of the time that a ping covers.
pub const START_TIME: &'static str = "2019-03-29T09:50-04:00";

/// The end of the time that a ping covers.
pub const END_TIME: &'static str = "2019-03-29T09:53-04:00";

/// The name of the ping whose values describe the client.
pub const CLIENT_INFO_PING: &'static str = "glean_client_info";

/// The `ping_info` of a ping with the name `name` and the sequence number `seq`.
pub open spec fn ping_info(name: Seq<char>, seq: int) -> JsonView {
    JsonView::Object(
        Map::empty().insert("ping_type"@, JsonView::String(name)).insert(
            "seq"@,
            JsonView::Number(seq),
        ).insert("start_time"@, JsonView::String(START_TIME@)).insert(
            "end_time"@,
            JsonView::String(END_TIME@),
        ),
    )
}

/// The `client_info` of a ping: the version of the library under `telemetry_sdk_build`, and
/// merged into that the values that the store holds for the client, each under its identifier.
pub open spec fn client_info(store: DatabaseView) -> JsonView {
    merged(
        JsonView::Object(
            Map::empty().insert("telemetry_sdk_build"@, JsonView::String(GLEAN_VERSION@)),
        ),
        JsonView::Object(counters_of(store.counters, CLIENT_INFO_PING@)),
    )
}

/// A ping: an object of its three parts.
pub open spec fn document(
    ping_info: JsonView,
    client_info: JsonView,
    metrics: JsonView,
) -> JsonView {
    JsonView::Object(
        Map::empty().insert("ping_info"@, ping_info).insert("client_info"@, client_info).insert(
            "metrics"@,
            metrics,
        ),
    )
}

/// The ping that a collection of the ping `name` puts together from a store: the values of
/// the ping as they are before the collection, and the `client_info` as it is after those
/// values have been read.
pub open spec fn collected(store: DatabaseView, name: Seq<char>) -> JsonView {
    document(
        ping_info(name, following(store.last_sequence(name)) as int),
        client_info(store.cleared(name)),
        store.snapshot(name),
    )
}

/// The store after a collection of the ping `name`: the values of the ping have been read,
/// and the ping has its next sequence number.
pub open spec fn after_collection(store: DatabaseView, name: Seq<char>) -> DatabaseView {
    DatabaseView {
        counters: store.cleared(name).counters,
        sequences: store.sequences.insert(name, following(store.last_sequence(name))),
    }
}

/// `acc` when the first `n` members of an object have been merged into it, one after the
/// other in the order `keys`.
pub open spec fn merged_groups(
    acc: JsonView,
    groups: Map<Seq<char>, JsonView>,
    keys: Seq<Seq<char>>,
    n: int,
) -> JsonView
    decreases n,
{
    if n <= 0 {
        acc
    } else {
        merged(merged_groups(acc, groups, keys, n - 1), groups[keys[n - 1]])
    }
}

/// The sequence number for a collection of the ping `storage_name` that starts now. Each
/// collection of a ping gets the number after that of the one before, the first gets 1.
pub fn get_ping_seq(store: &mut Database, storage_name: &str) -> (seq: usize)
    ensures
        seq == following(old(store)@.last_sequence(storage_name@)),
        final(store)@.sequences == old(store)@.sequences.insert(storage_name@, seq as u32),
        final(store)@.counters == old(store)@.counters,
{
    store.next_sequence(storage_name) as usize
}

/// The `ping_info` of a collection of the ping `storage_name` that starts now.
pub fn get_ping_info(store: &mut Database, storage_name: &str) -> (tree: Json)
    ensures
        tree@ == ping_info(
            storage_name@,
            following(old(store)@.last_sequence(storage_name@)) as int,
        ),
        final(store)@.sequences == old(store)@.sequences.insert(
            storage_name@,
            following(old(store)@.last_sequence(storage_name@)),
        ),
        final(store)@.counters == old(store)@.counters,
{
    let seq = get_ping_seq(store, storage_name);
    let mut members = JsonMap::new();
    members.insert("ping_type".to_owned(), Json::String(storage_name.to_owned()));
    members.insert("seq".to_owned(), Json::Number(seq as i64));
    members.insert("start_time".to_owned(), Json::String(START_TIME.to_owned()));
    members.insert("end_time".to_owned(), Json::String(END_TIME.to_owned()));
    Json::Object(members)
}

/// The `client_info` of a ping. The store stays as it is.
pub fn get_client_info(store: &Database) -> (tree: Json)
    ensures
        tree@ == client_info(store@),
{
    let snapshot = store.snapshot(CLIENT_INFO_PING);
    let mut members = JsonMap::new();
    members.insert("telemetry_sdk_build".to_owned(), Json::String(GLEAN_VERSION.to_owned()));
    let mut tree = Json::Object(members);
    let ghost base = tree@;
    let ghost counters = counters_of(store@.counters, CLIENT_INFO_PING@);
    if let Json::Object(groups) = &snapshot {
        let n = groups.len();
        let mut i: usize = 0;
        while i < n
            invariant
                i <= n == groups.keys().len(),
                tree@ == merged_groups(base, groups@, groups.keys(), i as int),
            decreases n - i,
        {
            if let Some((_key, value)) = groups.entry(i) {
                merge(&mut tree, value);
            }
            i += 1;
        }
        proof {
            // The snapshot holds the values of the client under one key, or it holds nothing.
            let keys = groups.keys();
            if counters == Map::<Seq<char>, JsonView>::empty() {
                if n > 0 {
                    assert(keys.contains(keys[0]));
                }
                assert(merged(base, JsonView::Object(counters))->Object_0 =~= base->Object_0);
            } else {
                assert(groups@.contains_key("counter"@));
                assert(keys.contains("counter"@));
                assert(keys.contains(keys[0]));
                if n > 1 {
                    assert(keys.contains(keys[1]));
                }
                assert(n == 1);
                reveal_with_fuel(merged_groups, 2);
            }
        }
    }
    tree
}

/// Collects the ping `storage_name`: its `ping_info`, its `client_info`, and under `metrics`
/// the values that the store holds for it. The values whose lifetime is the ping leave the
/// store.
pub fn collect(store: &mut Database, storage_name: &str) -> (tree: Json)
    ensures
        tree@ == collected(old(store)@, storage_name@),
        final(store)@ == after_collection(old(store)@, storage_name@),
{
    let metrics_data = store.snapshot_as_json(storage_name, true);
    let ping_info = get_ping_info(store, storage_name);
    let client_info = get_client_info(store);
    let mut members = JsonMap::new();
    members.insert("ping_info".to_owned(), ping_info);
    members.insert("client_info".to_owned(), client_info);
    members.insert("metrics".to_owned(), metrics_data);
    Json::Object(members)
}

/// Collects the ping `storage_name` as `collect` does, and gives it as indented text.
pub fn collect_string(store: &mut Database, storage_name: &str) -> (text: Result<
    String,
    EncodeError,
>)
    ensures
        match text {
            Ok(s) => pretty_text(collected(old(store)@, storage_name@)) == Some(s@),
            Err(e) => pretty_text(collected(old(store)@, storage_name@)) is None && e
                == EncodeError::Serializer,
        },
        final(store)@ == after_collection(old(store)@, storage_name@),
{
    let ping = collect(store, storage_name);
    to_string_pretty(&ping)
}

/// A ping has three members: `ping_info`, `client_info` and `metrics`.
pub proof fn lemma_document_members(ping_info: JsonView, client_info: JsonView, metrics: JsonView)
    ensures
        document(ping_info, client_info, metrics) matches JsonView::Object(members) && {
            &&& members.dom() == set!["ping_info"@, "client_info"@, "metrics"@]
            &&& members["ping_info"@] == ping_info
            &&& members["client_info"@] == client_info
            &&& members["metrics"@] == metrics
        },
{
    reveal_strlit("ping_info");
    reveal_strlit("client_info");
    reveal_strlit("metrics");
    let members = document(ping_info, client_info, metrics)->Object_0;
    assert("ping_info"@.len() == 9 && "client_info"@.len() == 11 && "metrics"@.len() == 7);
    assert(members.dom() =~= set!["ping_info"@, "client_info"@, "metrics"@]);
}

/// The `ping_info` of a ping has four members: the name of the ping, its sequence number,
/// and the two times.
pub proof fn lemma_ping_info_members(name: Seq<char>, seq: int)
    ensures
        ping_info(name, seq) matches JsonView::Object(members) && {
            &&& members.dom() == set!["ping_type"@, "seq"@, "start_time"@, "end_time"@]
            &&& members["ping_type"@] == JsonView::String(name)
            &&& members["seq"@] == JsonView::Number(seq)
            &&& members["start_time"@] == JsonView::String(START_TIME@)
            &&& members["end_time"@] == JsonView::String(END_TIME@)
        },
{
    reveal_strlit("ping_type");
    reveal_strlit("seq");
    reveal_strlit("start_time");
    reveal_strlit("end_time");
    let members = ping_info(name, seq)->Object_0;
    assert("ping_type"@.len() == 9 && "seq"@.len() == 3 && "start_time"@.len() == 10
        && "end_time"@.len() == 8);
    assert(members.dom() =~= set!["ping_type"@, "seq"@, "start_time"@, "end_time"@]);
}

/// The `client_info` of a ping is a flat object: it holds the version of the library and
/// the values of the client, each a string or a number, and no object.
pub proof fn lemma_client_info_flat(store: DatabaseView)
    ensures
        client_info(store) matches JsonView::Object(members) && {
            &&& forall|key: Seq<char>| #[trigger]
                members.contains_key(key) <==> key == "telemetry_sdk_build"@
                    || store.counters.contains_key((CLIENT_INFO_PING@, key))
            &&& forall|key: Seq<char>|
                store.counters.contains_key((CLIENT_INFO_PING@, key)) ==> #[trigger] members[key]
                    == JsonView::Number(store.counters[(CLIENT_INFO_PING@, key)].value as int)
            &&& !store.counters.contains_key((CLIENT_INFO_PING@, "telemetry_sdk_build"@))
                ==> members["telemetry_sdk_build"@] == JsonView::String(GLEAN_VERSION@)
        },
{
    reveal_with_fuel(merged, 2);
}

/// Whether `time` is a local time to the minute with its offset from UTC, written as in
/// `2019-03-29T09:50-04:00`.
pub open spec fn is_local_time(time: Seq<char>) -> bool {
    &&& time.len() == 22
    &&& forall|i: int|
        0 <= i < 22 && i != 4 && i != 7 && i != 10 && i != 13 && i != 16 && i != 19 ==> '0'
            <= #[trigger] time[i] <= '9'
    &&& time[4] == '-'
    &&& time[7] == '-'
    &&& time[10] == 'T'
    &&& time[13] == ':'
    &&& (time[16] == '+' || time[16] == '-')
    &&& time[19] == ':'
}

/// The two times of a ping are local times with their offset from UTC.
pub proof fn lemma_times_are_local_times()
    ensures
        is_local_time(START_TIME@),
        is_local_time(END_TIME@),
{
    reveal_strlit("2019-03-29T09:50-04:00");
    reveal_strlit("2019-03-29T09:53-04:00");
}

} // verus!
