//! The store of metric values, held in memory.

use crate::assoc::{
    assoc_map, lemma_assoc_index, lemma_assoc_push, lemma_assoc_take, lemma_assoc_update,
};
use crate::json::{Json, JsonMap, JsonView};
use crate::metrics::{names, CommonMetricData, Lifetime};
use vstd::prelude::*;

verus! {

/// A stored counter.
pub struct Counter {
    pub value: i32,
    pub lifetime: Lifetime,
}

/// A ping's name and a metric's identifier: the place of a stored value.
pub type Place = (Seq<char>, Seq<char>);

/// What a store holds.
pub struct DatabaseView {
    /// The counters, each under the ping that it goes to and its identifier.
    pub counters: Map<Place, Counter>,
    /// For each ping that was collected, the sequence number of its last collection.
    pub sequences: Map<Seq<char>, u32>,
}

/// The sequence number that follows `last`. The largest number is followed by itself.
pub open spec fn following(last: u32) -> u32 {
    if last < u32::MAX {
        (last + 1) as u32
    } else {
        u32::MAX
    }
}

/// `sum`, held to the range of a counter.
pub open spec fn saturated(sum: int) -> i32 {
    if sum > i32::MAX {
        i32::MAX
    } else if sum < i32::MIN {
        i32::MIN
    } else {
        sum as i32
    }
}

/// The counters of one ping as the members of a JSON object: each value under its identifier.
pub open spec fn counters_of(counters: Map<Place, Counter>, ping: Seq<char>) -> Map<
    Seq<char>,
    JsonView,
> {
    Map::new(
        |id: Seq<char>| counters.contains_key((ping, id)),
        |id: Seq<char>| JsonView::Number(counters[(ping, id)].value as int),
    )
}

/// The counters that stay when the values of one ping have been read for collection: all but
/// those of that ping whose lifetime is the ping.
pub open spec fn counters_cleared(counters: Map<Place, Counter>, ping: Seq<char>) -> Map<
    Place,
    Counter,
> {
    Map::new(
        |place: Place|
            counters.contains_key(place) && !(place.0 == ping && counters[place].lifetime
                == Lifetime::Ping),
        |place: Place| counters[place],
    )
}

/// The counters when `amount` has been added to the counter `id` in each of `pings`. A counter
/// that was not there starts from zero.
pub open spec fn counters_added(
    counters: Map<Place, Counter>,
    pings: Seq<Seq<char>>,
    id: Seq<char>,
    lifetime: Lifetime,
    amount: int,
) -> Map<Place, Counter> {
    Map::new(
        |place: Place| counters.contains_key(place) || (place.1 == id && pings.contains(place.0)),
        |place: Place|
            if place.1 == id && pings.contains(place.0) {
                Counter {
                    value: saturated(
                        (if counters.contains_key(place) {
                            counters[place].value as int
                        } else {
                            0
                        }) + amount,
                    ),
                    lifetime,
                }
            } else {
                counters[place]
            },
    )
}

impl DatabaseView {
    /// The value of the counter `id` in `ping`, where there is one.
    pub open spec fn counter(self, ping: Seq<char>, id: Seq<char>) -> Option<i32> {
        if self.counters.contains_key((ping, id)) {
            Some(self.counters[(ping, id)].value)
        } else {
            None
        }
    }

    /// The sequence number of the last collection of `ping`; zero before the first.
    pub open spec fn last_sequence(self, ping: Seq<char>) -> u32 {
        if self.sequences.contains_key(ping) {
            self.sequences[ping]
        } else {
            0
        }
    }

    /// What a snapshot of `ping` reads: an object with the counters of that ping under
    /// `counter`, or without members where the ping has no counter.
    pub open spec fn snapshot(self, ping: Seq<char>) -> JsonView {
        let counters = counters_of(self.counters, ping);
        if counters == Map::<Seq<char>, JsonView>::empty() {
            JsonView::Object(Map::empty())
        } else {
            JsonView::Object(Map::empty().insert("counter"@, JsonView::Object(counters)))
        }
    }

    /// The store when the values of `ping` have been read for collection.
    pub open spec fn cleared(self, ping: Seq<char>) -> DatabaseView {
        DatabaseView { counters: counters_cleared(self.counters, ping), ..self }
    }

    /// The store when `amount` has been added to the counter `id` in each of `pings`.
    pub open spec fn added(
        self,
        pings: Seq<Seq<char>>,
        id: Seq<char>,
        lifetime: Lifetime,
        amount: int,
    ) -> DatabaseView {
        DatabaseView {
            counters: counters_added(self.counters, pings, id, lifetime, amount),
            ..self
        }
    }
}

#[derive(Debug)]
struct Record {
    ping: String,
    identifier: String,
    lifetime: Lifetime,
    value: i32,
}

/// The store of metric values. It holds counters, and for each ping the number of its
/// collections.
#[derive(Debug)]
pub struct Database {
    records: Vec<Record>,
    sequences: Vec<(String, u32)>,
}

spec fn record_places(records: Seq<Record>) -> Seq<Place> {
    Seq::new(records.len(), |i: int| (records[i].ping@, records[i].identifier@))
}

spec fn record_counters(records: Seq<Record>) -> Seq<Counter> {
    Seq::new(
        records.len(),
        |i: int| Counter { value: records[i].value, lifetime: records[i].lifetime },
    )
}

spec fn records_map(records: Seq<Record>) -> Map<Place, Counter> {
    assoc_map(record_places(records), record_counters(records))
}

spec fn sequence_names(sequences: Seq<(String, u32)>) -> Seq<Seq<char>> {
    Seq::new(sequences.len(), |i: int| sequences[i].0@)
}

spec fn sequence_numbers(sequences: Seq<(String, u32)>) -> Seq<u32> {
    Seq::new(sequences.len(), |i: int| sequences[i].1)
}

impl View for Database {
    type V = DatabaseView;

    closed spec fn view(&self) -> DatabaseView {
        DatabaseView {
            counters: records_map(self.records@),
            sequences: assoc_map(
                sequence_names(self.sequences@),
                sequence_numbers(self.sequences@),
            ),
        }
    }
}

proof fn lemma_record_push(records: Seq<Record>, record: Record)
    requires
        record_places(records).no_duplicates(),
        !record_places(records).contains((record.ping@, record.identifier@)),
    ensures
        record_places(records.push(record)).no_duplicates(),
        records_map(records.push(record)) == records_map(records).insert(
            (record.ping@, record.identifier@),
            Counter { value: record.value, lifetime: record.lifetime },
        ),
{
    let place = (record.ping@, record.identifier@);
    let counter = Counter { value: record.value, lifetime: record.lifetime };
    assert(record_places(records.push(record)) =~= record_places(records).push(place));
    lemma_assoc_push(record_places(records), record_counters(records), place, counter);
}

proof fn lemma_record_update(records: Seq<Record>, after: Seq<Record>, i: int)
    requires
        record_places(records).no_duplicates(),
        0 <= i < records.len() == after.len(),
        after[i].ping == records[i].ping,
        after[i].identifier == records[i].identifier,
        forall|j: int| 0 <= j < after.len() && j != i ==> after[j] == records[j],
    ensures
        record_places(after) == record_places(records),
        records_map(records).contains_key(record_places(records)[i]),
        records_map(records)[record_places(records)[i]] == record_counters(records)[i],
        records_map(after) == records_map(records).insert(
            record_places(records)[i],
            record_counters(after)[i],
        ),
{
    lemma_assoc_index(record_places(records), record_counters(records), i);
    lemma_assoc_update(
        record_places(records),
        record_counters(records),
        i,
        record_counters(after)[i],
    );
}

/// One more ping in the list of pings adds to the counter in that ping, unless the list
/// held the ping before.
proof fn lemma_added_step(
    before: Map<Place, Counter>,
    pings: Seq<Seq<char>>,
    n: int,
    id: Seq<char>,
    lifetime: Lifetime,
    amount: int,
)
    requires
        0 <= n < pings.len(),
    ensures
        ({
            let done = counters_added(before, pings.take(n), id, lifetime, amount);
            let next = counters_added(before, pings.take(n + 1), id, lifetime, amount);
            let place = (pings[n], id);
            if pings.take(n).contains(pings[n]) {
                next == done
            } else {
                &&& done.contains_key(place) == before.contains_key(place)
                &&& done.contains_key(place) ==> done[place] == before[place]
                &&& next == done.insert(
                    place,
                    Counter {
                        value: saturated(
                            (if done.contains_key(place) {
                                done[place].value as int
                            } else {
                                0
                            }) + amount,
                        ),
                        lifetime,
                    },
                )
            }
        }),
{
    let earlier = pings.take(n);
    let later = pings.take(n + 1);
    assert(later =~= earlier.push(pings[n]));
    assert forall|p: Seq<char>| later.contains(p) <==> (earlier.contains(p) || p == pings[n]) by {
        if earlier.contains(p) {
            assert(later[earlier.index_of(p)] == p);
        }
        if p == pings[n] {
            assert(later[n] == p);
        }
    }
    let done = counters_added(before, earlier, id, lifetime, amount);
    let next = counters_added(before, later, id, lifetime, amount);
    let place = (pings[n], id);
    if earlier.contains(pings[n]) {
        assert(next =~= done);
    } else {
        assert(next =~= done.insert(
            place,
            Counter {
                value: saturated(
                    (if done.contains_key(place) {
                        done[place].value as int
                    } else {
                        0
                    }) + amount,
                ),
                lifetime,
            },
        ));
    }
}

/// The place in `records` of the counter `identifier` in `ping`, where there is one.
fn find_record(records: &Vec<Record>, ping: &String, identifier: &String) -> (place: Option<
    usize,
>)
    ensures
        match place {
            Some(i) => i < records.len() && record_places(records@)[i as int] == (
                ping@,
                identifier@,
            ),
            None => !record_places(records@).contains((ping@, identifier@)),
        },
{
    let mut i: usize = 0;
    while i < records.len()
        invariant
            i <= records.len(),
            forall|j: int| 0 <= j < i ==> record_places(records@)[j] != (ping@, identifier@),
        decreases records.len() - i,
    {
        if records[i].ping == *ping && records[i].identifier == *identifier {
            return Some(i);
        }
        i += 1;
    }
    None
}

/// Whether the string at place `n` of `strings` stands at an earlier place too.
fn occurs_before(strings: &Vec<String>, n: usize) -> (found: bool)
    requires
        n < strings.len(),
    ensures
        found == names(strings@).take(n as int).contains(strings[n as int]@),
{
    let ghost earlier = names(strings@).take(n as int);
    let mut i: usize = 0;
    while i < n
        invariant
            i <= n < strings.len(),
            earlier == names(strings@).take(n as int),
            forall|j: int| 0 <= j < i ==> earlier[j] != strings[n as int]@,
        decreases n - i,
    {
        if strings[i] == strings[n] {
            assert(earlier[i as int] == strings[n as int]@);
            return true;
        }
        i += 1;
    }
    false
}

/// `value + amount`, held to the range of a counter.
fn saturating_sum(value: i32, amount: i32) -> (sum: i32)
    ensures
        sum == saturated(value + amount),
{
    let wide: i64 = value as i64 + amount as i64;
    if wide > i32::MAX as i64 {
        i32::MAX
    } else if wide < i32::MIN as i64 {
        i32::MIN
    } else {
        wide as i32
    }
}

impl Database {
    #[verifier::type_invariant]
    spec fn inv(&self) -> bool {
        &&& record_places(self.records@).no_duplicates()
        &&& sequence_names(self.sequences@).no_duplicates()
    }

    /// A store that holds nothing.
    pub fn new() -> (store: Database)
        ensures
            store@.counters == Map::<Place, Counter>::empty(),
            store@.sequences == Map::<Seq<char>, u32>::empty(),
    {
        let store = Database { records: Vec::new(), sequences: Vec::new() };
        store
    }

    /// The value of the counter `identifier` in `ping`, where there is one.
    pub fn get_counter(&self, ping: &str, identifier: &str) -> (value: Option<i32>)
        ensures
            value == self@.counter(ping@, identifier@),
    {
        proof {
            use_type_invariant(self);
        }
        match find_record(&self.records, &ping.to_owned(), &identifier.to_owned()) {
            Some(i) => {
                proof {
                    lemma_assoc_index(
                        record_places(self.records@),
                        record_counters(self.records@),
                        i as int,
                    );
                }
                Some(self.records[i].value)
            },
            None => None,
        }
    }

    /// Adds `amount` to the counter of `meta` in each ping that `meta` names, once for a ping
    /// that it names twice. A counter that was not there starts from zero, and a sum outside
    /// the range of a counter is held to the range.
    pub fn add_to_counter(&mut self, meta: &CommonMetricData, amount: i32)
        ensures
            final(self)@ == old(self)@.added(
                meta.pings(),
                meta.spec_identifier(),
                meta.lifetime,
                amount as int,
            ),
    {
        proof {
            use_type_invariant(&*self);
        }
        let identifier = meta.identifier();
        let ghost before = self@.counters;
        let ghost id = meta.spec_identifier();
        let mut records: Vec<Record> = Vec::new();
        core::mem::swap(&mut self.records, &mut records);
        let mut i: usize = 0;
        while i < meta.send_in_pings.len()
            invariant
                i <= meta.send_in_pings.len(),
                identifier@ == id,
                record_places(records@).no_duplicates(),
                records_map(records@) == counters_added(
                    before,
                    meta.pings().take(i as int),
                    id,
                    meta.lifetime,
                    amount as int,
                ),
            decreases meta.send_in_pings.len() - i,
        {
            let ping = &meta.send_in_pings[i];
            proof {
                lemma_added_step(before, meta.pings(), i as int, id, meta.lifetime, amount as int);
            }
            if !occurs_before(&meta.send_in_pings, i) {
                match find_record(&records, ping, &identifier) {
                    Some(j) => {
                        let ghost old_records = records@;
                        let sum = saturating_sum(records[j].value, amount);
                        let record = &mut records[j];
                        record.value = sum;
                        record.lifetime = meta.lifetime;
                        proof {
                            lemma_record_update(old_records, records@, j as int);
                        }
                    },
                    None => {
                        let record = Record {
                            ping: ping.clone(),
                            identifier: identifier.clone(),
                            lifetime: meta.lifetime,
                            value: saturating_sum(0, amount),
                        };
                        proof {
                            lemma_record_push(records@, record);
                        }
                        records.push(record);
                    },
                }
            }
            i += 1;
        }
        assert(meta.pings().take(i as int) =~= meta.pings());
        self.records = records;
    }

    /// A snapshot of `ping`: the values that the store holds for it, as a JSON object. The
    /// store stays as it is.
    pub fn snapshot(&self, ping: &str) -> (tree: Json)
        ensures
            tree@ == self@.snapshot(ping@),
    {
        proof {
            use_type_invariant(self);
        }
        let name = ping.to_owned();
        let ghost places = record_places(self.records@);
        let ghost values = record_counters(self.records@);
        let mut counters = JsonMap::new();
        let mut i: usize = 0;
        assert(counters@ =~= counters_of(assoc_map(places.take(0), values.take(0)), ping@));
        while i < self.records.len()
            invariant
                i <= self.records.len(),
                name@ == ping@,
                places == record_places(self.records@),
                values == record_counters(self.records@),
                places.no_duplicates(),
                counters@ == counters_of(
                    assoc_map(places.take(i as int), values.take(i as int)),
                    ping@,
                ),
            decreases self.records.len() - i,
        {
            let ghost seen = assoc_map(places.take(i as int), values.take(i as int));
            proof {
                lemma_assoc_take(places, values, i as int);
            }
            if self.records[i].ping == name {
                let value = self.records[i].value;
                counters.insert(self.records[i].identifier.clone(), Json::Number(value as i64));
            }
            assert(counters@ =~= counters_of(
                seen.insert(places[i as int], values[i as int]),
                ping@,
            ));
            i += 1;
        }
        assert(places.take(i as int) =~= places && values.take(i as int) =~= values);
        let mut members = JsonMap::new();
        if !counters.is_empty() {
            members.insert("counter".to_owned(), Json::Object(counters));
        }
        Json::Object(members)
    }

    /// Drops the values of `ping` whose lifetime is the ping.
    pub fn clear_ping_lifetime(&mut self, ping: &str)
        ensures
            final(self)@ == old(self)@.cleared(ping@),
    {
        proof {
            use_type_invariant(&*self);
        }
        let name = ping.to_owned();
        let mut records: Vec<Record> = Vec::new();
        core::mem::swap(&mut self.records, &mut records);
        let ghost places = record_places(records@);
        let ghost values = record_counters(records@);
        let mut kept: Vec<Record> = Vec::new();
        let mut i: usize = 0;
        assert(records_map(kept@) =~= counters_cleared(
            assoc_map(places.take(0), values.take(0)),
            ping@,
        ));
        while i < records.len()
            invariant
                i <= records.len(),
                name@ == ping@,
                places == record_places(records@),
                values == record_counters(records@),
                places.no_duplicates(),
                record_places(kept@).no_duplicates(),
                records_map(kept@) == counters_cleared(
                    assoc_map(places.take(i as int), values.take(i as int)),
                    ping@,
                ),
            decreases records.len() - i,
        {
            let ghost seen = assoc_map(places.take(i as int), values.take(i as int));
            proof {
                lemma_assoc_take(places, values, i as int);
            }
            let dropped = records[i].ping == name && records[i].lifetime == Lifetime::Ping;
            if !dropped {
                let record = Record {
                    ping: records[i].ping.clone(),
                    identifier: records[i].identifier.clone(),
                    lifetime: records[i].lifetime,
                    value: records[i].value,
                };
                proof {
                    assert(!records_map(kept@).contains_key(places[i as int]));
                    lemma_record_push(kept@, record);
                }
                kept.push(record);
            }
            assert(records_map(kept@) =~= counters_cleared(
                seen.insert(places[i as int], values[i as int]),
                ping@,
            ));
            i += 1;
        }
        assert(places.take(i as int) =~= places && values.take(i as int) =~= values);
        self.records = kept;
    }

    /// A snapshot of `ping`, as `snapshot` gives it. With `clear_store` the values of the ping
    /// whose lifetime is the ping are dropped once they have been read.
    pub fn snapshot_as_json(&mut self, ping: &str, clear_store: bool) -> (tree: Json)
        ensures
            tree@ == old(self)@.snapshot(ping@),
            final(self)@ == if clear_store {
                old(self)@.cleared(ping@)
            } else {
                old(self)@
            },
    {
        let tree = self.snapshot(ping);
        if clear_store {
            self.clear_ping_lifetime(ping);
        }
        tree
    }

    /// The sequence number for a collection of `ping` that starts now: the one that follows
    /// the number of the last collection, and 1 for the first.
    pub fn next_sequence(&mut self, ping: &str) -> (number: u32)
        ensures
            number == following(old(self)@.last_sequence(ping@)),
            final(self)@.sequences == old(self)@.sequences.insert(ping@, number),
            final(self)@.counters == old(self)@.counters,
    {
        proof {
            use_type_invariant(&*self);
        }
        let name = ping.to_owned();
        let mut sequences: Vec<(String, u32)> = Vec::new();
        core::mem::swap(&mut self.sequences, &mut sequences);
        let ghost names = sequence_names(sequences@);
        let ghost numbers = sequence_numbers(sequences@);
        let mut i: usize = 0;
        while i < sequences.len() && sequences[i].0 != name
            invariant
                i <= sequences.len(),
                names == sequence_names(sequences@),
                forall|j: int| 0 <= j < i ==> names[j] != name@,
            decreases sequences.len() - i,
        {
            i += 1;
        }
        let number: u32;
        if i < sequences.len() {
            let last = sequences[i].1;
            number = if last < u32::MAX { last + 1 } else { last };
            proof {
                lemma_assoc_index(names, numbers, i as int);
                lemma_assoc_update(names, numbers, i as int, number);
            }
            sequences[i] = (name, number);
            assert(sequence_names(sequences@) =~= names);
        } else {
            number = 1;
            proof {
                lemma_assoc_push(names, numbers, name@, number);
            }
            sequences.push((name, number));
            assert(sequence_names(sequences@) =~= names.push(name@));
        }
        self.sequences = sequences;
        number
    }
}

/// A sequence number is at least 1, and greater than the one before it as long as there is
/// a greater one.
pub proof fn lemma_sequence_increases(last: u32)
    ensures
        following(last) >= 1,
        following(last) >= last,
        last < u32::MAX ==> following(last) == last + 1,
{
}

/// The snapshot of a ping that has no value in the store is an object without members.
pub proof fn lemma_snapshot_of_nothing(store: DatabaseView, ping: Seq<char>)
    requires
        forall|id: Seq<char>| store.counter(ping, id) is None,
    ensures
        store.snapshot(ping) == JsonView::Object(Map::empty()),
{
    assert forall|id: Seq<char>| !counters_of(store.counters, ping).contains_key(id) by {
        assert(store.counter(ping, id) is None);
    }
    assert(counters_of(store.counters, ping) =~= Map::<Seq<char>, JsonView>::empty());
}

/// The snapshot of a ping that has a value in the store holds the values of the ping under
/// `counter`, and nothing else.
pub proof fn lemma_snapshot_of_counters(store: DatabaseView, ping: Seq<char>, id: Seq<char>)
    requires
        store.counter(ping, id) is Some,
    ensures
        store.snapshot(ping) matches JsonView::Object(members) && {
            &&& members.dom() == set!["counter"@]
            &&& members["counter"@] matches JsonView::Object(counters)
            &&& forall|other: Seq<char>| #[trigger]
                counters.contains_key(other) <==> store.counter(ping, other) is Some
            &&& forall|other: Seq<char>|
                store.counter(ping, other) is Some ==> #[trigger] counters[other]
                    == JsonView::Number(store.counter(ping, other)->0 as int)
        },
{
    assert(counters_of(store.counters, ping).contains_key(id));
    let members = store.snapshot(ping)->Object_0;
    assert(members.dom() =~= set!["counter"@]);
}

} // verus!
