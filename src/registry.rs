//! The registry of counter families and its exposition text.
use vstd::prelude::*;
use crate::partition::{
    count_of, bump, keys_distinct, lemma_bump_counts, CounterPartition, LabelKey, PartitionView,
    Sample,
};
use crate::text::{escaped, decimal, push_str, push_escaped, push_decimal, string_of};

verus! {

/// What can go wrong with the counters.
#[derive(Clone, Copy, Debug, PartialEq, Eq, Structural)]
pub enum MetricsError {
    /// A metric of that name is registered already.
    DuplicateMetricName,
    /// The number of label values differs from the number of label names.
    LabelCardinalityMismatch,
    /// The name, the help text or a label name is not acceptable.
    InvalidDescriptor,
}

/// Identity of a counter family: its name, help text and ordered label names.
pub struct MetricDescriptor {
    pub name: String,
    pub help: String,
    pub label_names: Vec<String>,
}

/// Refers to a metric family of the registry that handed it out.
#[derive(Clone, Copy, Debug, PartialEq, Eq, Structural)]
pub struct MetricHandle {
    pub index: usize,
}

/// A registered counter family, abstractly.
pub struct MetricView {
    pub name: Seq<char>,
    pub help: Seq<char>,
    pub label_names: Seq<Seq<char>>,
    pub samples: PartitionView,
}

pub open spec fn is_ascii_letter(c: char) -> bool {
    (0x41 <= c as u32 <= 0x5a) || (0x61 <= c as u32 <= 0x7a)
}

pub open spec fn is_ascii_digit(c: char) -> bool {
    0x30 <= c as u32 <= 0x39
}

/// A letter, `_`, or where `colon` holds `:`.
pub open spec fn ident_start(c: char, colon: bool) -> bool {
    is_ascii_letter(c) || c == '_' || (colon && c == ':')
}

/// A non-empty identifier: a start character, then start characters or digits.
pub open spec fn valid_ident(s: Seq<char>, colon: bool) -> bool {
    &&& s.len() > 0
    &&& ident_start(s[0], colon)
    &&& forall|i: int| 1 <= i < s.len() ==> ident_start(#[trigger] s[i], colon) || is_ascii_digit(s[i])
}

/// A descriptor that registration accepts: non-empty help, a metric name
/// (colons allowed), label names (no colons), no label name twice.
pub open spec fn descriptor_ok(name: Seq<char>, help: Seq<char>, labels: Seq<Seq<char>>) -> bool {
    &&& help.len() > 0
    &&& valid_ident(name, true)
    &&& forall|i: int| 0 <= i < labels.len() ==> valid_ident(#[trigger] labels[i], false)
    &&& forall|i: int, j: int| 0 <= i < j < labels.len() ==> #[trigger] labels[i] != #[trigger] labels[j]
}

/// Relies on `prometheus::core::Desc::new`, which, given no constant labels,
/// succeeds exactly when the help text is non-empty, the name is a valid
/// metric name, every label name is a valid label name and none repeats.
#[verifier::external_body]
fn descriptor_accepted(name: &String, help: &String, label_names: &Vec<String>) -> (r: bool)
    ensures
        r == descriptor_ok(name@, help@, label_names.deep_view()),
{
    prometheus::core::Desc::new(
        name.clone(),
        help.clone(),
        label_names.clone(),
        std::collections::HashMap::new(),
    ).is_ok()
}

/// A metric of that name is among `v`.
pub open spec fn has_name(v: Seq<MetricView>, name: Seq<char>) -> bool {
    exists|i: int| 0 <= i < v.len() && #[trigger] v[i].name == name
}

/// The invariant of a registry: valid descriptors, distinct names, and in
/// each partition distinct combinations of the right length.
pub open spec fn registry_wf(v: Seq<MetricView>) -> bool {
    &&& forall|i: int, j: int| 0 <= i < j < v.len() ==> #[trigger] v[i].name != #[trigger] v[j].name
    &&& forall|i: int| 0 <= i < v.len() ==> metric_wf(#[trigger] v[i])
}

pub open spec fn metric_wf(m: MetricView) -> bool {
    &&& descriptor_ok(m.name, m.help, m.label_names)
    &&& keys_distinct(m.samples)
    &&& forall|j: int| 0 <= j < m.samples.len() ==> (#[trigger] m.samples[j]).0.len() == m.label_names.len()
}

/// The first `n` pairs `label="value"` of a sample, comma-separated.
pub open spec fn label_pairs(names: Seq<Seq<char>>, values: LabelKey, n: int) -> Seq<char>
    decreases n,
{
    if n <= 0 {
        Seq::empty()
    } else {
        label_pairs(names, values, n - 1) + (if n > 1 {
            seq![',']
        } else {
            Seq::empty()
        }) + names[n - 1] + seq!['=', '"'] + escaped(values[n - 1], true) + seq!['"']
    }
}

/// The line of one sample; a family without labels has no braces.
pub open spec fn sample_line(name: Seq<char>, names: Seq<Seq<char>>, s: (LabelKey, u64)) -> Seq<char> {
    name + (if names.len() == 0 {
        Seq::empty()
    } else {
        seq!['{'] + label_pairs(names, s.0, names.len() as int) + seq!['}']
    }) + seq![' '] + decimal(s.1 as nat) + seq!['\n']
}

/// The lines of the first `n` samples of `m`.
pub open spec fn sample_lines(m: MetricView, n: int) -> Seq<char>
    decreases n,
{
    if n <= 0 {
        Seq::empty()
    } else {
        sample_lines(m, n - 1) + sample_line(m.name, m.label_names, m.samples[n - 1])
    }
}

/// HELP and TYPE lines of a family, then its samples in order of first observation.
pub open spec fn metric_text(m: MetricView) -> Seq<char> {
    "# HELP "@ + m.name + seq![' '] + escaped(m.help, false) + seq!['\n'] + "# TYPE "@ + m.name
        + " counter\n"@ + sample_lines(m, m.samples.len() as int)
}

/// The text of the first `n` families.
pub open spec fn exposition_upto(v: Seq<MetricView>, n: int) -> Seq<char>
    decreases n,
{
    if n <= 0 {
        Seq::empty()
    } else {
        exposition_upto(v, n - 1) + metric_text(v[n - 1])
    }
}

/// The exposition text of a registry: its families in registration order.
pub open spec fn exposition(v: Seq<MetricView>) -> Seq<char> {
    exposition_upto(v, v.len() as int)
}

struct Metric {
    descriptor: MetricDescriptor,
    partition: CounterPartition,
}

impl View for Metric {
    type V = MetricView;

    closed spec fn view(&self) -> MetricView {
        MetricView {
            name: self.descriptor.name@,
            help: self.descriptor.help@,
            label_names: self.descriptor.label_names.deep_view(),
            samples: self.partition@,
        }
    }
}

fn write_sample(name: &String, names: &Vec<String>, s: &Sample, out: &mut Vec<char>)
    requires
        s.values.len() == names.len(),
    ensures
        final(out)@ == old(out)@ + sample_line(name@, names.deep_view(), s@),
{
    let ghost ns = names.deep_view();
    let ghost vs = s.values.deep_view();
    push_str(out, name.as_str());
    if names.len() > 0 {
        out.push('{');
        let ghost start = out@;
        let mut j: usize = 0;
        while j < names.len()
            invariant
                j <= names.len(),
                s.values.len() == names.len(),
                ns == names.deep_view(),
                vs == s.values.deep_view(),
                out@ == start + label_pairs(ns, vs, j as int),
            decreases names.len() - j,
        {
            if j > 0 {
                out.push(',');
            }
            push_str(out, names[j].as_str());
            out.push('=');
            out.push('"');
            push_escaped(out, s.values[j].as_str(), true);
            out.push('"');
            assert(out@ =~= start + label_pairs(ns, vs, j + 1));
            j += 1;
        }
        out.push('}');
    }
    out.push(' ');
    push_decimal(out, s.count);
    out.push('\n');
    assert(out@ =~= old(out)@ + sample_line(name@, ns, s@));
}

impl Metric {
    fn write_text(&self, out: &mut Vec<char>)
        requires
            metric_wf(self@),
        ensures
            final(out)@ == old(out)@ + metric_text(self@),
    {
        let ghost m = self@;
        push_str(out, "# HELP ");
        push_str(out, self.descriptor.name.as_str());
        out.push(' ');
        push_escaped(out, self.descriptor.help.as_str(), false);
        out.push('\n');
        push_str(out, "# TYPE ");
        push_str(out, self.descriptor.name.as_str());
        push_str(out, " counter\n");
        let ghost start = out@;
        let mut i: usize = 0;
        while i < self.partition.len()
            invariant
                i <= m.samples.len(),
                m == self@,
                metric_wf(m),
                out@ == start + sample_lines(m, i as int),
            decreases m.samples.len() - i,
        {
            let s = self.partition.sample(i);
            assert(m.samples[i as int].0.len() == m.label_names.len());
            write_sample(&self.descriptor.name, &self.descriptor.label_names, s, out);
            assert(out@ =~= start + sample_lines(m, i + 1));
            i += 1;
        }
        assert(out@ =~= old(out)@ + metric_text(m));
    }
}

/// All registered counter families of a process, in registration order.
pub struct Registry {
    metrics: Vec<Metric>,
}

impl View for Registry {
    type V = Seq<MetricView>;

    closed spec fn view(&self) -> Seq<MetricView> {
        self.metrics@.map_values(|m: Metric| m@)
    }
}

impl Registry {
    /// Well-formed: see `registry_wf`.
    pub open spec fn wf(&self) -> bool {
        registry_wf(self@)
    }

    /// An empty registry.
    pub fn new() -> (r: Registry)
        ensures
            r@ == Seq::<MetricView>::empty(),
            r.wf(),
    {
        let r = Registry { metrics: Vec::new() };
        assert(r@ =~= Seq::<MetricView>::empty());
        r
    }

    /// The number of registered families.
    pub fn len(&self) -> (r: usize)
        ensures
            r == self@.len(),
    {
        self.metrics.len()
    }

    fn contains_name(&self, name: &String) -> (r: bool)
        ensures
            r == has_name(self@, name@),
    {
        let mut i: usize = 0;
        while i < self.metrics.len()
            invariant
                i <= self@.len(),
                self@.len() == self.metrics@.len(),
                forall|j: int| 0 <= j < i ==> #[trigger] self@[j].name != name@,
            decreases self.metrics.len() - i,
        {
            if self.metrics[i].descriptor.name == *name {
                assert(self@[i as int].name == name@);
                return true;
            }
            i += 1;
        }
        false
    }

    /// Adds a counter family with no observations yet. An invalid descriptor
    /// is refused first, then a name that is taken.
    pub fn register(&mut self, descriptor: MetricDescriptor) -> (r: Result<MetricHandle, MetricsError>)
        requires
            old(self).wf(),
        ensures
            final(self).wf(),
            !descriptor_ok(descriptor.name@, descriptor.help@, descriptor.label_names.deep_view())
                ==> r == Err::<MetricHandle, MetricsError>(MetricsError::InvalidDescriptor)
                && final(self)@ == old(self)@,
            descriptor_ok(descriptor.name@, descriptor.help@, descriptor.label_names.deep_view())
                && has_name(old(self)@, descriptor.name@)
                ==> r == Err::<MetricHandle, MetricsError>(MetricsError::DuplicateMetricName)
                && final(self)@ == old(self)@,
            descriptor_ok(descriptor.name@, descriptor.help@, descriptor.label_names.deep_view())
                && !has_name(old(self)@, descriptor.name@) ==> r is Ok && r->Ok_0.index == old(self)@.len() && final(self)@ == old(self)@.push(
                (MetricView {
                    name: descriptor.name@,
                    help: descriptor.help@,
                    label_names: descriptor.label_names.deep_view(),
                    samples: Seq::empty(),
                }),
            ),
    {
        if !descriptor_accepted(&descriptor.name, &descriptor.help, &descriptor.label_names) {
            return Err(MetricsError::InvalidDescriptor);
        }
        if self.contains_name(&descriptor.name) {
            return Err(MetricsError::DuplicateMetricName);
        }
        let index = self.metrics.len();
        let metric = Metric { descriptor, partition: CounterPartition::new() };
        self.metrics.push(metric);
        assert(self@ =~= old(self)@.push(metric@));
        proof {
            let v = self@;
            assert forall|i: int, j: int| 0 <= i < j < v.len() implies #[trigger] v[i].name
                != #[trigger] v[j].name by {
                if j == v.len() - 1 {
                    assert(old(self)@[i].name != metric@.name);
                }
            }
        }
        Ok(MetricHandle { index })
    }

    /// Counts one observation of `values` in the family of `h`. A list of
    /// the wrong length is refused and changes nothing.
    pub fn observe(&mut self, h: MetricHandle, values: &Vec<String>) -> (r: Result<(), MetricsError>)
        requires
            old(self).wf(),
            h.index < old(self)@.len(),
        ensures
            final(self).wf(),
            values.len() != old(self)@[h.index as int].label_names.len() ==> r == Err::<(), MetricsError>(
                MetricsError::LabelCardinalityMismatch,
            ) && final(self)@ == old(self)@,
            values.len() == old(self)@[h.index as int].label_names.len() ==> r is Ok && final(self)@
                == old(self)@.update(
                h.index as int,
                (MetricView {
                    samples: bump(old(self)@[h.index as int].samples, values.deep_view()),
                    ..old(self)@[h.index as int]
                }),
            ),
    {
        let i = h.index;
        if values.len() != self.metrics[i].descriptor.label_names.len() {
            return Err(MetricsError::LabelCardinalityMismatch);
        }
        let ghost k = values.deep_view();
        let ghost m = self@[i as int];
        proof {
            lemma_bump_counts(m.samples, k, k);
        }
        let mut metric = self.metrics.remove(i);
        metric.partition.increment(values);
        self.metrics.insert(i, metric);
        let ghost m2 = MetricView { samples: bump(m.samples, k), ..m };
        assert(metric@ == m2);
        assert(self@ =~= old(self)@.update(i as int, m2));
        proof {
            let q = m2.samples;
            assert forall|j: int| 0 <= j < q.len() implies (#[trigger] q[j]).0.len() == m2.label_names.len() by {
                if j < m.samples.len() {
                    assert(m.samples[j].0.len() == m.label_names.len());
                }
            }
            assert(metric_wf(m2));
            let v = self@;
            assert forall|a: int| 0 <= a < v.len() implies metric_wf(#[trigger] v[a]) by {
                if a != i {
                    assert(v[a] == old(self)@[a]);
                }
            }
        }
        Ok(())
    }

    /// The counter of `values` in the family of `h`: zero when never observed.
    pub fn count(&self, h: MetricHandle, values: &Vec<String>) -> (r: u64)
        requires
            self.wf(),
            h.index < self@.len(),
        ensures
            r == count_of(self@[h.index as int].samples, values.deep_view()),
    {
        assert(metric_wf(self@[h.index as int]));
        self.metrics[h.index].partition.count(values)
    }

    /// The exposition text of every family, in registration order. Reads only.
    pub fn encode(&self) -> (r: String)
        requires
            self.wf(),
        ensures
            r@ == exposition(self@),
    {
        let mut out: Vec<char> = Vec::new();
        let mut i: usize = 0;
        while i < self.metrics.len()
            invariant
                i <= self@.len(),
                self@.len() == self.metrics@.len(),
                registry_wf(self@),
                out@ == exposition_upto(self@, i as int),
            decreases self.metrics.len() - i,
        {
            assert(metric_wf(self@[i as int]));
            self.metrics[i].write_text(&mut out);
            assert(out@ =~= exposition_upto(self@, i + 1));
            i += 1;
        }
        string_of(&out)
    }
}

} // verus!
