//! Misuse of a metric, recorded as a metric of its own.
//!
//! A value or a label that a metric does not accept is no failure for the caller. It is
//! counted, in a counter that the library keeps for the metric and the kind of error, and that
//! goes to the pings of the metric and to the `metrics` ping.

use crate::database::{Database, DatabaseView};
use crate::metrics::{
    base_identifier, lemma_base_of_labeled, names, truncate_label, CommonMetricData, Lifetime,
};
use vstd::prelude::*;

verus! {

/// The kinds of misuse of a metric that are counted.
#[derive(Debug, Clone, Copy, PartialEq, Eq, Structural)]
pub enum ErrorType {
    /// A value that the metric does not accept.
    InvalidValue,
    /// A label that the metric does not accept.
    InvalidLabel,
}

impl ErrorType {
    /// The token under which an error of this kind is counted.
    pub open spec fn token(self) -> Seq<char> {
        match self {
            ErrorType::InvalidValue => "invalid_value"@,
            ErrorType::InvalidLabel => "invalid_label"@,
        }
    }

    /// The token under which an error of this kind is counted.
    pub fn to_string(&self) -> (token: &'static str)
        ensures
            token@ == self.token(),
    {
        match self {
            ErrorType::InvalidValue => "invalid_value",
            ErrorType::InvalidLabel => "invalid_label",
        }
    }
}

/// The pings of an error counter: those of the metric, and `metrics` after them where it is
/// not among them.
pub open spec fn error_pings(pings: Seq<Seq<char>>) -> Seq<Seq<char>> {
    if pings.contains("metrics"@) {
        pings
    } else {
        pings.push("metrics"@)
    }
}

/// The name of the counter for errors of one kind on the metric `id`: the token of the kind,
/// a `/`, and `id` without its label.
pub open spec fn error_name(error: ErrorType, id: Seq<char>) -> Seq<char> {
    error.token() + seq!['/'] + base_identifier(id)
}

/// The identifier of that counter, in the category `glean.error`.
pub open spec fn error_identifier(error: ErrorType, id: Seq<char>) -> Seq<char> {
    "glean.error"@ + seq!['.'] + error_name(error, id)
}

/// The store when one error of kind `error` has been recorded on the metric `id` that goes to
/// `pings`.
pub open spec fn recorded(
    store: DatabaseView,
    pings: Seq<Seq<char>>,
    id: Seq<char>,
    error: ErrorType,
) -> DatabaseView {
    store.added(error_pings(pings), error_identifier(error, id), Lifetime::Ping, 1)
}

/// The line that tells of an error on the metric `id`.
pub open spec fn diagnostic(id: Seq<char>, message: Seq<char>) -> Seq<char> {
    id + ": "@ + message
}

/// What is said where no error has been recorded for a metric.
pub open spec fn not_recorded(id: Seq<char>, ping: Seq<char>) -> Seq<char> {
    "No error recorded for "@ + id + " in "@ + ping
}

/// Copies of `strings`, in their order.
fn clone_names(strings: &Vec<String>) -> (copies: Vec<String>)
    ensures
        names(copies@) == names(strings@),
{
    let mut copies: Vec<String> = Vec::new();
    let mut i: usize = 0;
    while i < strings.len()
        invariant
            i <= strings.len(),
            copies.len() == i,
            forall|j: int| 0 <= j < i ==> (#[trigger] copies[j])@ == strings[j]@,
        decreases strings.len() - i,
    {
        copies.push(strings[i].clone());
        i += 1;
    }
    copies
}

/// Whether `name` is one of `strings`.
fn contains_name(strings: &Vec<String>, name: &String) -> (found: bool)
    ensures
        found == names(strings@).contains(name@),
{
    let mut i: usize = 0;
    while i < strings.len()
        invariant
            i <= strings.len(),
            forall|j: int| 0 <= j < i ==> names(strings@)[j] != name@,
        decreases strings.len() - i,
    {
        if strings[i] == *name {
            assert(names(strings@)[i as int] == name@);
            return true;
        }
        i += 1;
    }
    false
}

/// The counter for errors of kind `error` on the metric `meta`.
pub fn error_metric(meta: &CommonMetricData, error: ErrorType) -> (metric: CommonMetricData)
    ensures
        metric.name@ == error_name(error, meta.spec_identifier()),
        metric.category@ == "glean.error"@,
        metric.lifetime == Lifetime::Ping,
        metric.pings() == error_pings(meta.pings()),
        metric.spec_identifier() == error_identifier(error, meta.spec_identifier()),
{
    let identifier = meta.identifier();
    let base = truncate_label(identifier.as_str());
    proof {
        reveal_strlit("/");
    }
    let mut name = error.to_string().to_owned();
    name.append("/");
    name.append(base.as_str());
    let mut send_in_pings = clone_names(&meta.send_in_pings);
    let diagnostic_ping = "metrics".to_owned();
    if !contains_name(&send_in_pings, &diagnostic_ping) {
        send_in_pings.push(diagnostic_ping);
    }
    CommonMetricData {
        name,
        category: "glean.error".to_owned(),
        send_in_pings,
        lifetime: Lifetime::Ping,
    }
}

/// Records one error of kind `error` on the metric `meta`: adds 1 to the counter for such
/// errors, in each ping of the metric and in the `metrics` ping. Returns the line that tells
/// of the error, for the caller to log.
pub fn record_error(
    store: &mut Database,
    meta: &CommonMetricData,
    error: ErrorType,
    message: &str,
) -> (line: String)
    ensures
        final(store)@ == recorded(old(store)@, meta.pings(), meta.spec_identifier(), error),
        line@ == diagnostic(meta.spec_identifier(), message@),
{
    let metric = error_metric(meta, error);
    store.add_to_counter(&metric, 1);
    let mut line = meta.identifier();
    line.append(": ");
    line.append(message);
    line
}

/// The number of errors of kind `error` that are recorded on the metric `meta`, read in the
/// first ping of the counter for them. Where that ping holds no such counter, the result
/// tells so. A program has no use for this but in its tests.
pub fn get_num_recorded_errors(
    store: &Database,
    meta: &CommonMetricData,
    error: ErrorType,
) -> (count: Result<i32, String>)
    ensures
        ({
            let ping = error_pings(meta.pings())[0];
            let id = error_identifier(error, meta.spec_identifier());
            match count {
                Ok(n) => store@.counter(ping, id) == Some(n),
                Err(message) => store@.counter(ping, id) is None && message@ == not_recorded(
                    id,
                    ping,
                ),
            }
        }),
{
    let metric = error_metric(meta, error);
    let identifier = metric.identifier();
    assert(error_pings(meta.pings()).len() > 0);
    let ping = &metric.send_in_pings[0];
    match store.get_counter(ping.as_str(), identifier.as_str()) {
        Some(n) => Ok(n),
        None => {
            let mut message = "No error recorded for ".to_owned();
            message.append(identifier.as_str());
            message.append(" in ");
            message.append(ping.as_str());
            Err(message)
        },
    }
}

/// The counter for errors on a labeled metric is named after the metric without its label.
pub proof fn lemma_error_identifier_of_labeled(error: ErrorType, base: Seq<char>, label: Seq<char>)
    requires
        !base.contains('/'),
    ensures
        error_identifier(error, base + seq!['/'] + label) == "glean.error"@ + seq!['.']
            + error.token() + seq!['/'] + base,
{
    lemma_base_of_labeled(base, label);
}

/// The counter for errors goes to every ping of the metric and to the `metrics` ping.
pub proof fn lemma_error_pings(pings: Seq<Seq<char>>)
    ensures
        error_pings(pings).contains("metrics"@),
        forall|ping: Seq<char>| pings.contains(ping) ==> error_pings(pings).contains(ping),
        forall|ping: Seq<char>|
            error_pings(pings).contains(ping) ==> pings.contains(ping) || ping == "metrics"@,
{
    let all = error_pings(pings);
    if !pings.contains("metrics"@) {
        assert(all[pings.len() as int] == "metrics"@);
        assert forall|ping: Seq<char>| pings.contains(ping) implies all.contains(ping) by {
            assert(all[pings.index_of(ping)] == ping);
        }
    }
}

/// Recording an error adds one to its counter in every ping of the metric and in the `metrics`
/// ping, and leaves every other counter as it was. A counter that was not there reads 1.
pub proof fn lemma_record_error_counts(
    store: DatabaseView,
    pings: Seq<Seq<char>>,
    id: Seq<char>,
    error: ErrorType,
)
    ensures
        forall|ping: Seq<char>|
            pings.contains(ping) || ping == "metrics"@ ==> #[trigger] recorded(
                store,
                pings,
                id,
                error,
            ).counter(ping, error_identifier(error, id)) == Some(
                match store.counter(ping, error_identifier(error, id)) {
                    Some(n) => crate::database::saturated(n + 1),
                    None => 1i32,
                },
            ),
        forall|ping: Seq<char>, other: Seq<char>|
            !(other == error_identifier(error, id) && (pings.contains(ping) || ping == "metrics"@))
                ==> #[trigger] recorded(store, pings, id, error).counter(ping, other)
                == store.counter(ping, other),
{
    lemma_error_pings(pings);
}

/// One error on a labeled metric that had none makes the counter that is named after the
/// metric without its label read 1, in every ping of the metric and in the `metrics` ping.
pub proof fn lemma_record_error_on_labeled(
    store: DatabaseView,
    pings: Seq<Seq<char>>,
    base: Seq<char>,
    label: Seq<char>,
    error: ErrorType,
    ping: Seq<char>,
)
    requires
        !base.contains('/'),
        pings.contains(ping) || ping == "metrics"@,
        store.counter(ping, "glean.error"@ + seq!['.'] + error.token() + seq!['/'] + base) is None,
    ensures
        recorded(store, pings, base + seq!['/'] + label, error).counter(
            ping,
            "glean.error"@ + seq!['.'] + error.token() + seq!['/'] + base,
        ) == Some(1i32),
{
    lemma_error_identifier_of_labeled(error, base, label);
    lemma_record_error_counts(store, pings, base + seq!['/'] + label, error);
}

/// Recording the same error twice on a metric that had none makes its counter read 2.
pub proof fn lemma_record_error_twice(
    store: DatabaseView,
    pings: Seq<Seq<char>>,
    id: Seq<char>,
    error: ErrorType,
    ping: Seq<char>,
)
    requires
        pings.contains(ping) || ping == "metrics"@,
        store.counter(ping, error_identifier(error, id)) is None,
    ensures
        recorded(recorded(store, pings, id, error), pings, id, error).counter(
            ping,
            error_identifier(error, id),
        ) == Some(2i32),
{
    lemma_record_error_counts(store, pings, id, error);
    lemma_record_error_counts(recorded(store, pings, id, error), pings, id, error);
}

} // verus!
