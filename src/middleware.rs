//! The hooks a web framework's middleware needs: one request counter with
//! labels `method` and `status`, and the scrape endpoint's body.
use vstd::prelude::*;
use crate::partition::bump;
use crate::registry::{descriptor_ok, exposition, has_name, MetricDescriptor, MetricHandle, MetricView, MetricsError, Registry};
use crate::text::{push_str, string_of};

verus! {

/// The name of the request counter for `prefix`.
pub open spec fn requests_name(prefix: Seq<char>) -> Seq<char> {
    prefix + "_http_requests"@
}

/// The help text of the request counter.
pub open spec fn requests_help() -> Seq<char> {
    "Counts http requests"@
}

/// The label names of the request counter.
pub open spec fn requests_labels() -> Seq<Seq<char>> {
    seq!["method"@, "status"@]
}

/// The media type of the exposition text.
pub open spec fn text_format_type() -> Seq<char> {
    "text/plain; version=0.0.4"@
}

/// Relies on `prometheus::TEXT_FORMAT`, the media type of the text format.
#[verifier::external_body]
fn text_format() -> (r: String)
    ensures
        r@ == text_format_type(),
{
    prometheus::TEXT_FORMAT.to_owned()
}

/// Counts every request by method and response status.
#[derive(Clone, Copy, Debug)]
pub struct Prometheus {
    http_requests: MetricHandle,
}

impl Prometheus {
    /// The family of `{prefix}_http_requests` in `reg`.
    pub open spec fn counts_in(&self, reg: Seq<MetricView>) -> bool {
        &&& self.handle_spec().index < reg.len()
        &&& reg[self.handle_spec().index as int].label_names == requests_labels()
    }

    pub closed spec fn handle_spec(&self) -> MetricHandle {
        self.http_requests
    }

    /// The handle of the request counter.
    pub fn metric_handle(&self) -> (r: MetricHandle)
        ensures
            r == self.handle_spec(),
    {
        self.http_requests
    }

    /// Registers `{prefix}_http_requests` in `registry` and counts into it.
    pub fn new(registry: &mut Registry, prefix: &str) -> (r: Result<Prometheus, MetricsError>)
        requires
            old(registry).wf(),
        ensures
            final(registry).wf(),
            match r {
                Ok(p) => p.handle_spec().index == old(registry)@.len() && p.counts_in(final(registry)@),
                Err(_) => final(registry)@ == old(registry)@,
            },
            r is Ok <==> descriptor_ok(requests_name(prefix@), requests_help(), requests_labels())
                && !has_name(old(registry)@, requests_name(prefix@)),
            r is Ok ==> final(registry)@ == old(registry)@.push(
                (MetricView {
                    name: requests_name(prefix@),
                    help: requests_help(),
                    label_names: requests_labels(),
                    samples: Seq::empty(),
                }),
            ),
            !descriptor_ok(requests_name(prefix@), requests_help(), requests_labels())
                ==> r == Err::<Prometheus, MetricsError>(MetricsError::InvalidDescriptor),
            descriptor_ok(requests_name(prefix@), requests_help(), requests_labels())
                && has_name(old(registry)@, requests_name(prefix@))
                ==> r == Err::<Prometheus, MetricsError>(MetricsError::DuplicateMetricName),
    {
        match Self::http_requests(registry, prefix) {
            Ok(h) => {
                let p = Prometheus { http_requests: h };
                assert(registry@[h.index as int].label_names == requests_labels());
                Ok(p)
            },
            Err(e) => Err(e),
        }
    }

    /// Creates and registers the `{prefix}_http_requests` counter.
    fn http_requests(registry: &mut Registry, prefix: &str) -> (r: Result<MetricHandle, MetricsError>)
        requires
            old(registry).wf(),
        ensures
            final(registry).wf(),
            !descriptor_ok(requests_name(prefix@), requests_help(), requests_labels())
                ==> r == Err::<MetricHandle, MetricsError>(MetricsError::InvalidDescriptor)
                && final(registry)@ == old(registry)@,
            descriptor_ok(requests_name(prefix@), requests_help(), requests_labels())
                && has_name(old(registry)@, requests_name(prefix@))
                ==> r == Err::<MetricHandle, MetricsError>(MetricsError::DuplicateMetricName)
                && final(registry)@ == old(registry)@,
            descriptor_ok(requests_name(prefix@), requests_help(), requests_labels())
                && !has_name(old(registry)@, requests_name(prefix@))
                ==> r is Ok && r->Ok_0.index == old(registry)@.len() && final(registry)@ == old(registry)@.push(
                (MetricView {
                    name: requests_name(prefix@),
                    help: requests_help(),
                    label_names: requests_labels(),
                    samples: Seq::empty(),
                }),
            ),
    {
        let mut cs: Vec<char> = Vec::new();
        push_str(&mut cs, prefix);
        push_str(&mut cs, "_http_requests");
        let name = string_of(&cs);
        let mut label_names: Vec<String> = Vec::new();
        label_names.push("method".to_owned());
        label_names.push("status".to_owned());
        assert(label_names.deep_view() =~= requests_labels());
        let help = "Counts http requests".to_owned();
        registry.register(MetricDescriptor { name, help, label_names })
    }

    /// The per-request hook: counts one request with this method and status.
    pub fn handle(&self, registry: &mut Registry, method: &str, status: &str)
        requires
            old(registry).wf(),
            self.counts_in(old(registry)@),
        ensures
            final(registry).wf(),
            self.counts_in(final(registry)@),
            final(registry)@ == old(registry)@.update(
                self.handle_spec().index as int,
                (MetricView {
                    samples: bump(
                        old(registry)@[self.handle_spec().index as int].samples,
                        seq![method@, status@],
                    ),
                    ..old(registry)@[self.handle_spec().index as int]
                }),
            ),
    {
        let mut values: Vec<String> = Vec::new();
        values.push(method.to_owned());
        values.push(status.to_owned());
        assert(values.deep_view() =~= seq![method@, status@]);
        let _ = registry.observe(self.http_requests, &values);
    }
}

/// The scrape endpoint: the exposition text of `registry` and its media type.
pub fn metrics_endpoint(registry: &Registry) -> (r: (String, String))
    requires
        registry.wf(),
    ensures
        r.0@ == exposition(registry@),
        r.1@ == text_format_type(),
{
    (registry.encode(), text_format())
}

} // verus!
