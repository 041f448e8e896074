//! What identifies a metric.

use vstd::prelude::*;

verus! {

/// When the stored value of a metric is reset.
#[derive(Debug, Clone, Copy, PartialEq, Eq, Structural)]
pub enum Lifetime {
    /// Reset when the value has been read for a ping.
    Ping,
    /// Reset when the application starts.
    Application,
    /// Reset when the user's profile is reset.
    User,
}

impl Default for Lifetime {
    /// The lifetime of a metric that names none: the ping.
    fn default() -> (lifetime: Lifetime)
        ensures
            lifetime == Lifetime::Ping,
    {
        Lifetime::Ping
    }
}

/// What every metric carries: its name, and the pings that its value goes to.
#[derive(Debug, Clone)]
pub struct CommonMetricData {
    /// The name, with a label after a `/` where the metric has one.
    pub name: String,
    pub category: String,
    /// The names of the pings that the value of the metric goes to.
    pub send_in_pings: Vec<String>,
    pub lifetime: Lifetime,
}

impl Default for CommonMetricData {
    /// A metric without a name, a category or a ping, whose value lives for a ping.
    fn default() -> (meta: CommonMetricData)
        ensures
            meta.name@ == Seq::<char>::empty(),
            meta.category@ == Seq::<char>::empty(),
            meta.send_in_pings@ == Seq::<String>::empty(),
            meta.lifetime == Lifetime::Ping,
    {
        CommonMetricData {
            name: String::new(),
            category: String::new(),
            send_in_pings: Vec::new(),
            lifetime: Lifetime::Ping,
        }
    }
}

/// The names that a list of strings holds, in its order.
pub open spec fn names(strings: Seq<String>) -> Seq<Seq<char>> {
    Seq::new(strings.len(), |i: int| strings[i]@)
}

/// The place of the first `/` in `id`, or the length of `id` where it holds none.
pub open spec fn base_length(id: Seq<char>) -> int {
    if id.contains('/') {
        choose|i: int|
            0 <= i < id.len() && id[i] == '/' && forall|j: int| 0 <= j < i ==> id[j] != '/'
    } else {
        id.len() as int
    }
}

/// An identifier without its label: what stands before the first `/`.
pub open spec fn base_identifier(id: Seq<char>) -> Seq<char> {
    id.take(base_length(id))
}

/// The first `/` of `id` is the only place that has a `/` and none before it.
pub proof fn lemma_base_length(id: Seq<char>, n: int)
    requires
        0 <= n <= id.len(),
        forall|j: int| 0 <= j < n ==> id[j] != '/',
        n < id.len() ==> id[n] == '/',
    ensures
        base_length(id) == n,
{
    if id.contains('/') {
        let i = id.index_of('/');
        assert(id[i] == '/');
        assert(n < id.len());
        let m = base_length(id);
        assert(0 <= m < id.len() && id[m] == '/' && forall|j: int| 0 <= j < m ==> id[j] != '/');
    }
}

/// Cutting the label off a labeled identifier gives the identifier that it was put on.
pub proof fn lemma_base_of_labeled(base: Seq<char>, label: Seq<char>)
    requires
        !base.contains('/'),
    ensures
        base_identifier(base + seq!['/'] + label) == base,
{
    let id = base + seq!['/'] + label;
    assert forall|j: int| 0 <= j < base.len() implies id[j] != '/' by {
        assert(id[j] == base[j]);
    }
    lemma_base_length(id, base.len() as int);
    assert(id.take(base.len() as int) =~= base);
}

/// An identifier without a `/` is its own base.
pub proof fn lemma_base_of_unlabeled(id: Seq<char>)
    requires
        !id.contains('/'),
    ensures
        base_identifier(id) == id,
{
}

/// The place of the first `/` in `id`, or its length where it holds none.
fn first_slash(id: &str) -> (n: usize)
    ensures
        n == base_length(id@),
        n <= id@.len(),
{
    let len = id.unicode_len();
    let mut n: usize = 0;
    let mut found = false;
    for c in it: id.chars()
        invariant
            it.seq() == id@,
            len == id@.len(),
            n <= it.index(),
            !found ==> n == it.index(),
            found ==> n < id@.len() && id@[n as int] == '/',
            forall|j: int| 0 <= j < n ==> id@[j] != '/',
    {
        if !found {
            if c == '/' {
                found = true;
            } else {
                n += 1;
            }
        }
    }
    proof {
        lemma_base_length(id@, n as int);
    }
    n
}

/// The identifier `id` without its label.
pub fn truncate_label(id: &str) -> (base: String)
    ensures
        base@ == base_identifier(id@),
{
    let n = first_slash(id);
    id.substring_char(0, n).to_owned()
}

impl CommonMetricData {
    /// The category and the name, joined by a dot.
    pub open spec fn spec_identifier(&self) -> Seq<char> {
        self.category@ + seq!['.'] + self.name@
    }

    /// The names of the pings that the metric's value goes to.
    pub open spec fn pings(&self) -> Seq<Seq<char>> {
        names(self.send_in_pings@)
    }

    /// The category and the name, joined by a dot.
    pub fn identifier(&self) -> (id: String)
        ensures
            id@ == self.spec_identifier(),
    {
        proof {
            reveal_strlit(".");
        }
        let mut id = self.category.clone();
        id.append(".");
        id.append(self.name.as_str());
        id
    }
}

} // verus!
