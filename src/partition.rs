//! The counter partition: one counter per distinct combination of label values.
use vstd::prelude::*;

verus! {

/// One observed combination of label values, in the descriptor's label order.
pub type LabelKey = Seq<Seq<char>>;

/// The abstract partition: combinations in the order they were first
/// observed, each with its counter.
pub type PartitionView = Seq<(LabelKey, u64)>;

/// No combination occurs twice.
pub open spec fn keys_distinct(p: PartitionView) -> bool {
    forall|i: int, j: int| 0 <= i < j < p.len() ==> #[trigger] p[i].0 != #[trigger] p[j].0
}

/// `k` has been observed.
pub open spec fn has_key(p: PartitionView, k: LabelKey) -> bool {
    exists|i: int| 0 <= i < p.len() && #[trigger] p[i].0 == k
}

/// Where `k` stands in `p` (meaningful when `has_key(p, k)`).
pub open spec fn slot(p: PartitionView, k: LabelKey) -> int {
    choose|i: int| 0 <= i < p.len() && #[trigger] p[i].0 == k
}

/// The counter of `k`: zero for a combination never observed.
pub open spec fn count_of(p: PartitionView, k: LabelKey) -> u64 {
    if has_key(p, k) {
        p[slot(p, k)].1
    } else {
        0
    }
}

/// One more, except that a counter at the top of its range stays there.
pub open spec fn saturating_inc(n: u64) -> u64 {
    if n == u64::MAX {
        n
    } else {
        (n + 1) as u64
    }
}

/// The partition after one observation of `k`: an existing counter goes up
/// in place, a new combination is appended with count 1.
pub open spec fn bump(p: PartitionView, k: LabelKey) -> PartitionView {
    if has_key(p, k) {
        p.update(slot(p, k), (k, saturating_inc(p[slot(p, k)].1)))
    } else {
        p.push((k, 1))
    }
}

/// Each counter after one observation of `k`.
pub proof fn lemma_bump_counts(p: PartitionView, k: LabelKey, j: LabelKey)
    requires
        keys_distinct(p),
    ensures
        keys_distinct(bump(p, k)),
        count_of(bump(p, k), j) == if j == k {
            saturating_inc(count_of(p, k))
        } else {
            count_of(p, j)
        },
{
    let q = bump(p, k);
    if has_key(p, k) {
        let s = slot(p, k);
        assert(q[s].0 == k);
        if j == k {
            assert(has_key(q, k));
            assert(slot(q, k) == s);
        } else if has_key(p, j) {
            let t = slot(p, j);
            assert(q[t].0 == j);
            assert(has_key(q, j));
            assert(slot(q, j) == t);
        } else {
            assert(!has_key(q, j)) by {
                if has_key(q, j) {
                    let u = slot(q, j);
                    assert(p[u].0 == j);
                }
            }
        }
    } else {
        assert(q[p.len() as int].0 == k);
        if j == k {
            assert(has_key(q, k));
            assert(slot(q, k) == p.len());
        } else if has_key(p, j) {
            let t = slot(p, j);
            assert(q[t].0 == j);
            assert(slot(q, j) == t);
        } else {
            assert(!has_key(q, j)) by {
                if has_key(q, j) {
                    let u = slot(q, j);
                    assert(p[u].0 == j);
                }
            }
        }
    }
}

/// The counter of one combination of label values.
pub struct Sample {
    pub values: Vec<String>,
    pub count: u64,
}

impl View for Sample {
    type V = (LabelKey, u64);

    open spec fn view(&self) -> (LabelKey, u64) {
        (self.values.deep_view(), self.count)
    }
}

/// Label-partitioned counters of one metric family.
pub struct CounterPartition {
    samples: Vec<Sample>,
}

impl View for CounterPartition {
    type V = PartitionView;

    closed spec fn view(&self) -> PartitionView {
        self.samples@.map_values(|s: Sample| s@)
    }
}

/// Two label-value lists are equal position by position.
pub fn same_values(a: &Vec<String>, b: &Vec<String>) -> (r: bool)
    ensures
        r == (a.deep_view() == b.deep_view()),
{
    if a.len() != b.len() {
        assert(a.deep_view().len() != b.deep_view().len());
        return false;
    }
    let mut i: usize = 0;
    while i < a.len()
        invariant
            i <= a.len(),
            a.len() == b.len(),
            forall|j: int| 0 <= j < i ==> a@[j]@ == b@[j]@,
        decreases a.len() - i,
    {
        if a[i] != b[i] {
            assert(a.deep_view()[i as int] != b.deep_view()[i as int]);
            return false;
        }
        i += 1;
    }
    assert(a.deep_view() =~= b.deep_view());
    true
}

impl CounterPartition {
    /// Well-formed: no combination occurs twice.
    pub open spec fn wf(&self) -> bool {
        keys_distinct(self@)
    }

    /// An empty partition.
    pub fn new() -> (r: CounterPartition)
        ensures
            r@ == Seq::<(LabelKey, u64)>::empty(),
            r.wf(),
    {
        let r = CounterPartition { samples: Vec::new() };
        assert(r@ =~= Seq::<(LabelKey, u64)>::empty());
        r
    }

    /// The number of combinations observed so far.
    pub fn len(&self) -> (r: usize)
        ensures
            r == self@.len(),
    {
        self.samples.len()
    }

    /// The combination at `i` and its counter.
    pub fn sample(&self, i: usize) -> (r: &Sample)
        requires
            i < self@.len(),
        ensures
            r@ == self@[i as int],
    {
        &self.samples[i]
    }

    /// Where `values` stands, if it has been observed.
    pub fn find(&self, values: &Vec<String>) -> (r: Option<usize>)
        ensures
            match r {
                Some(i) => i < self@.len() && self@[i as int].0 == values.deep_view(),
                None => !has_key(self@, values.deep_view()),
            },
    {
        let mut i: usize = 0;
        while i < self.samples.len()
            invariant
                i <= self@.len(),
                self@.len() == self.samples@.len(),
                forall|j: int| 0 <= j < i ==> #[trigger] self@[j].0 != values.deep_view(),
            decreases self.samples.len() - i,
        {
            if same_values(&self.samples[i].values, values) {
                return Some(i);
            }
            i += 1;
        }
        None
    }

    /// The counter of `values`: zero when never observed.
    pub fn count(&self, values: &Vec<String>) -> (r: u64)
        requires
            self.wf(),
        ensures
            r == count_of(self@, values.deep_view()),
    {
        match self.find(values) {
            Some(i) => {
                proof {
                    let k = values.deep_view();
                    assert(has_key(self@, k));
                    assert(slot(self@, k) == i);
                }
                self.samples[i].count
            },
            None => 0,
        }
    }

    /// Counts one observation of `values`.
    pub fn increment(&mut self, values: &Vec<String>)
        requires
            old(self).wf(),
        ensures
            final(self).wf(),
            final(self)@ == bump(old(self)@, values.deep_view()),
    {
        let ghost k = values.deep_view();
        proof {
            lemma_bump_counts(self@, k, k);
        }
        match self.find(values) {
            Some(i) => {
                proof {
                    assert(has_key(self@, k));
                    assert(slot(self@, k) == i);
                }
                let c = self.samples[i].count;
                let n = if c == u64::MAX { c } else { c + 1 };
                self.samples[i].count = n;
                assert(self@ =~= bump(old(self)@, k));
            },
            None => {
                let mut copy: Vec<String> = Vec::new();
                let mut j: usize = 0;
                while j < values.len()
                    invariant
                        j <= values.len(),
                        copy@.len() == j,
                        forall|t: int| 0 <= t < j ==> copy@[t]@ == values@[t]@,
                    decreases values.len() - j,
                {
                    copy.push(values[j].clone());
                    j += 1;
                }
                assert(copy.deep_view() =~= k);
                self.samples.push(Sample { values: copy, count: 1 });
                assert(self@ =~= bump(old(self)@, k));
            },
        }
    }
}

} // verus!
