//! Properties that hold across several calls.
use vstd::prelude::*;
use crate::partition::{bump, count_of, keys_distinct, lemma_bump_counts, LabelKey, PartitionView};
use crate::registry::{exposition, has_name, MetricView};

verus! {

/// The partition after observing each combination of `obs` in turn, as
/// `Registry::observe` does one at a time.
pub open spec fn replay(p: PartitionView, obs: Seq<LabelKey>) -> PartitionView
    decreases obs.len(),
{
    if obs.len() == 0 {
        p
    } else {
        bump(replay(p, obs.drop_last()), obs.last())
    }
}

/// How often `k` occurs in `obs`.
pub open spec fn occurrences(obs: Seq<LabelKey>, k: LabelKey) -> nat
    decreases obs.len(),
{
    if obs.len() == 0 {
        0
    } else {
        occurrences(obs.drop_last(), k) + if obs.last() == k {
            1nat
        } else {
            0nat
        }
    }
}

/// After any sequence of observations, the counter of a combination has
/// grown by exactly the number of observations of that combination, in
/// whatever order they came (as long as it stays below the top of `u64`).
pub proof fn lemma_counts_equal_observations(p: PartitionView, obs: Seq<LabelKey>, k: LabelKey)
    requires
        keys_distinct(p),
        count_of(p, k) + occurrences(obs, k) < u64::MAX,
    ensures
        keys_distinct(replay(p, obs)),
        count_of(replay(p, obs), k) == count_of(p, k) + occurrences(obs, k),
    decreases obs.len(),
{
    if obs.len() > 0 {
        lemma_counts_equal_observations(p, obs.drop_last(), k);
        lemma_bump_counts(replay(p, obs.drop_last()), obs.last(), k);
    }
}

/// Observations never lower a counter nor move a combination: every sample
/// of an earlier snapshot stands at the same place later, with a value at
/// least as large.
pub proof fn lemma_counts_never_decrease(p: PartitionView, obs: Seq<LabelKey>)
    requires
        keys_distinct(p),
    ensures
        keys_distinct(replay(p, obs)),
        replay(p, obs).len() >= p.len(),
        forall|i: int| 0 <= i < p.len() ==> (#[trigger] replay(p, obs)[i]).0 == p[i].0
            && replay(p, obs)[i].1 >= p[i].1,
    decreases obs.len(),
{
    if obs.len() > 0 {
        let q = replay(p, obs.drop_last());
        lemma_counts_never_decrease(p, obs.drop_last());
        lemma_bump_counts(q, obs.last(), obs.last());
        let r = bump(q, obs.last());
        assert forall|i: int| 0 <= i < p.len() implies (#[trigger] r[i]).0 == p[i].0 && r[i].1 >= p[i].1 by {
            assert(q[i].0 == p[i].0 && q[i].1 >= p[i].1);
        }
    }
}

/// The text depends on the registry's contents alone. As `Registry::encode`
/// takes the registry by shared reference, two encodings with no
/// observation between them give the same text.
pub proof fn lemma_encoding_repeats(before: Seq<MetricView>, after: Seq<MetricView>)
    requires
        before == after,
    ensures
        exposition(before) == exposition(after),
{
}

/// Once a family is registered under a name, that name is taken; a
/// different name that was free stays free.
pub proof fn lemma_registered_name_is_taken(v: Seq<MetricView>, m: MetricView, other: Seq<char>)
    ensures
        has_name(v.push(m), m.name),
        other != m.name && !has_name(v, other) ==> !has_name(v.push(m), other),
{
    let w = v.push(m);
    assert(w[v.len() as int].name == m.name);
    if other != m.name && !has_name(v, other) {
        assert forall|i: int| 0 <= i < w.len() implies #[trigger] w[i].name != other by {
            if i < v.len() {
                assert(w[i] == v[i]);
            }
        }
    }
}

/// Observing one family leaves every other family exactly as it was.
pub proof fn lemma_families_independent(v: Seq<MetricView>, h: int, k: LabelKey, other: int)
    requires
        0 <= h < v.len(),
        0 <= other < v.len(),
        other != h,
    ensures
        v.update(h, (MetricView { samples: bump(v[h].samples, k), ..v[h] }))[other] == v[other],
{
}

} // verus!
