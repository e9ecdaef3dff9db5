use tide_prometheus::{
    metrics_endpoint, CounterPartition, MetricDescriptor, MetricsError, Prometheus, Registry,
};

const METRICS: &str = r#"
# HELP custom_http_requests Counts http requests
# TYPE custom_http_requests counter
custom_http_requests{method="HEAD",status="500"} 1
custom_http_requests{method="DELETE",status="500"} 1
# HELP tide_http_requests Counts http requests
# TYPE tide_http_requests counter
tide_http_requests{method="GET",status="200"} 1
tide_http_requests{method="POST",status="200"} 1
"#;

fn strings(xs: &[&str]) -> Vec<String> {
    xs.iter().map(|s| s.to_string()).collect()
}

fn descriptor(name: &str, help: &str, labels: &[&str]) -> MetricDescriptor {
    MetricDescriptor {
        name: name.to_string(),
        help: help.to_string(),
        label_names: strings(labels),
    }
}

#[test]
fn test_metrics() {
    let mut registry = Registry::new();

    let tide_prefix = Prometheus::new(&mut registry, "tide").unwrap();
    for method in ["GET", "POST"] {
        tide_prefix.handle(&mut registry, method, "200");
    }

    let own_prefix = Prometheus::new(&mut registry, "custom").unwrap();
    for method in ["HEAD", "DELETE"] {
        own_prefix.handle(&mut registry, method, "500");
    }

    let (metrics, content_type) = metrics_endpoint(&registry);
    assert_eq!(content_type, prometheus::TEXT_FORMAT);

    for line in METRICS.trim().lines() {
        assert!(metrics.contains(line));
    }
}

#[test]
fn end_to_end_exact_text() {
    let mut registry = Registry::new();
    let p = Prometheus::new(&mut registry, "tide").unwrap();
    p.handle(&mut registry, "GET", "200");
    p.handle(&mut registry, "POST", "200");
    let (body, content_type) = metrics_endpoint(&registry);
    assert_eq!(content_type, "text/plain; version=0.0.4");
    assert_eq!(
        body,
        "# HELP tide_http_requests Counts http requests\n\
         # TYPE tide_http_requests counter\n\
         tide_http_requests{method=\"GET\",status=\"200\"} 1\n\
         tide_http_requests{method=\"POST\",status=\"200\"} 1\n"
    );
    let samples: Vec<&str> = body.lines().filter(|l| l.starts_with("tide_http_requests")).collect();
    assert_eq!(samples.len(), 2);
}

#[test]
fn count_equals_number_of_observations() {
    let mut registry = Registry::new();
    let h = registry.register(descriptor("reqs", "Requests", &["method", "status"])).unwrap();
    let get = strings(&["GET", "200"]);
    let post = strings(&["POST", "200"]);
    for _ in 0..5 {
        registry.observe(h, &get).unwrap();
    }
    registry.observe(h, &post).unwrap();
    registry.observe(h, &get).unwrap();
    assert_eq!(registry.count(h, &get), 6);
    assert_eq!(registry.count(h, &post), 1);
    assert_eq!(registry.count(h, &strings(&["PUT", "200"])), 0);
}

#[test]
fn label_identity_is_exact() {
    let mut registry = Registry::new();
    let h = registry.register(descriptor("reqs", "Requests", &["a", "b"])).unwrap();
    registry.observe(h, &strings(&["ab", "c"])).unwrap();
    registry.observe(h, &strings(&["a", "bc"])).unwrap();
    registry.observe(h, &strings(&["get", "c"])).unwrap();
    assert_eq!(registry.count(h, &strings(&["ab", "c"])), 1);
    assert_eq!(registry.count(h, &strings(&["a", "bc"])), 1);
    assert_eq!(registry.count(h, &strings(&["GET", "c"])), 0);
}

#[test]
fn encode_twice_is_identical() {
    let mut registry = Registry::new();
    let p = Prometheus::new(&mut registry, "tide").unwrap();
    p.handle(&mut registry, "GET", "200");
    let first = registry.encode();
    let second = registry.encode();
    assert_eq!(first, second);
}

#[test]
fn encode_after_more_observations_never_decreases() {
    let mut registry = Registry::new();
    let p = Prometheus::new(&mut registry, "tide").unwrap();
    p.handle(&mut registry, "GET", "200");
    p.handle(&mut registry, "POST", "404");
    let before = registry.encode();
    p.handle(&mut registry, "GET", "200");
    p.handle(&mut registry, "PUT", "201");
    let after = registry.encode();
    assert!(before.contains("tide_http_requests{method=\"GET\",status=\"200\"} 1\n"));
    assert!(after.contains("tide_http_requests{method=\"GET\",status=\"200\"} 2\n"));
    assert!(after.contains("tide_http_requests{method=\"POST\",status=\"404\"} 1\n"));
    assert!(after.contains("tide_http_requests{method=\"PUT\",status=\"201\"} 1\n"));
}

#[test]
fn duplicate_name_is_refused() {
    let mut registry = Registry::new();
    assert!(Prometheus::new(&mut registry, "tide").is_ok());
    assert_eq!(
        Prometheus::new(&mut registry, "tide").unwrap_err(),
        MetricsError::DuplicateMetricName
    );
    assert!(Prometheus::new(&mut registry, "custom").is_ok());
    assert_eq!(registry.len(), 2);
    assert_eq!(
        registry.register(descriptor("custom_http_requests", "Other", &["x"])),
        Err(MetricsError::DuplicateMetricName)
    );
    assert_eq!(registry.len(), 2);
}

#[test]
fn wrong_label_count_is_refused_without_change() {
    let mut registry = Registry::new();
    let h = registry.register(descriptor("reqs", "Requests", &["method", "status"])).unwrap();
    registry.observe(h, &strings(&["GET", "200"])).unwrap();
    let before = registry.encode();
    assert_eq!(registry.observe(h, &strings(&["GET"])), Err(MetricsError::LabelCardinalityMismatch));
    assert_eq!(
        registry.observe(h, &strings(&["GET", "200", "x"])),
        Err(MetricsError::LabelCardinalityMismatch)
    );
    assert_eq!(registry.observe(h, &strings(&[])), Err(MetricsError::LabelCardinalityMismatch));
    assert_eq!(registry.encode(), before);
    assert_eq!(registry.count(h, &strings(&["GET", "200"])), 1);
}

#[test]
fn families_are_independent() {
    let mut registry = Registry::new();
    let tide = Prometheus::new(&mut registry, "tide").unwrap();
    let custom = Prometheus::new(&mut registry, "custom").unwrap();
    tide.handle(&mut registry, "GET", "200");
    let get = strings(&["GET", "200"]);
    assert_eq!(registry.count(custom.metric_handle(), &get), 0);
    custom.handle(&mut registry, "DELETE", "500");
    custom.handle(&mut registry, "GET", "200");
    assert_eq!(registry.count(tide.metric_handle(), &get), 1);
    assert_eq!(registry.count(custom.metric_handle(), &get), 1);
    assert_eq!(
        registry.encode(),
        "# HELP tide_http_requests Counts http requests\n\
         # TYPE tide_http_requests counter\n\
         tide_http_requests{method=\"GET\",status=\"200\"} 1\n\
         # HELP custom_http_requests Counts http requests\n\
         # TYPE custom_http_requests counter\n\
         custom_http_requests{method=\"DELETE\",status=\"500\"} 1\n\
         custom_http_requests{method=\"GET\",status=\"200\"} 1\n"
    );
}

#[test]
fn empty_registry_encodes_to_nothing() {
    let registry = Registry::new();
    assert_eq!(registry.encode(), "");
    let (body, _) = metrics_endpoint(&registry);
    assert_eq!(body, "");
}

#[test]
fn registered_family_without_samples_has_only_metadata() {
    let mut registry = Registry::new();
    Prometheus::new(&mut registry, "idle").unwrap();
    assert_eq!(
        registry.encode(),
        "# HELP idle_http_requests Counts http requests\n# TYPE idle_http_requests counter\n"
    );
}

#[test]
fn label_values_and_help_are_escaped() {
    let mut registry = Registry::new();
    let h = registry
        .register(descriptor("esc", "line one\nback\\slash \"quoted\"", &["v"]))
        .unwrap();
    registry.observe(h, &strings(&["a\"b\\c\nd"])).unwrap();
    assert_eq!(
        registry.encode(),
        "# HELP esc line one\\nback\\\\slash \"quoted\"\n\
         # TYPE esc counter\n\
         esc{v=\"a\\\"b\\\\c\\nd\"} 1\n"
    );
}

#[test]
fn family_without_labels_has_no_braces() {
    let mut registry = Registry::new();
    let h = registry.register(descriptor("up:total", "Ups", &[])).unwrap();
    for _ in 0..1234 {
        registry.observe(h, &strings(&[])).unwrap();
    }
    assert_eq!(registry.encode(), "# HELP up:total Ups\n# TYPE up:total counter\nup:total 1234\n");
}

#[test]
fn counts_print_in_decimal() {
    let mut registry = Registry::new();
    let h = registry.register(descriptor("n", "N", &["k"])).unwrap();
    for _ in 0..100 {
        registry.observe(h, &strings(&["x"])).unwrap();
    }
    registry.observe(h, &strings(&["y"])).unwrap();
    let text = registry.encode();
    assert!(text.contains("n{k=\"x\"} 100\n"));
    assert!(text.contains("n{k=\"y\"} 1\n"));
}

#[test]
fn invalid_descriptors_are_refused() {
    let mut registry = Registry::new();
    let bad = [
        descriptor("ok_name", "", &["a"]),
        descriptor("", "help", &["a"]),
        descriptor("1abc", "help", &["a"]),
        descriptor("has-dash", "help", &["a"]),
        descriptor("ok_name", "help", &["a:b"]),
        descriptor("ok_name", "help", &["9a"]),
        descriptor("ok_name", "help", &[""]),
        descriptor("ok_name", "help", &["a", "a"]),
    ];
    for d in bad {
        assert_eq!(registry.register(d), Err(MetricsError::InvalidDescriptor));
    }
    assert_eq!(registry.len(), 0);
    assert!(registry.register(descriptor("_ok:name9", "help", &["_a", "b7"])).is_ok());
    assert_eq!(Prometheus::new(&mut registry, "bad prefix").unwrap_err(), MetricsError::InvalidDescriptor);
    assert_eq!(registry.len(), 1);
}

#[test]
fn handles_are_given_in_registration_order() {
    let mut registry = Registry::new();
    let a = Prometheus::new(&mut registry, "a").unwrap();
    let b = Prometheus::new(&mut registry, "b").unwrap();
    assert_eq!(a.metric_handle().index, 0);
    assert_eq!(b.metric_handle().index, 1);
}

#[test]
fn partition_keeps_first_observation_order() {
    let mut p = CounterPartition::new();
    assert_eq!(p.len(), 0);
    let b = strings(&["b"]);
    let a = strings(&["a"]);
    p.increment(&b);
    p.increment(&a);
    p.increment(&b);
    assert_eq!(p.len(), 2);
    assert_eq!(p.find(&b), Some(0));
    assert_eq!(p.find(&a), Some(1));
    assert_eq!(p.find(&strings(&["c"])), None);
    assert_eq!(p.sample(0).values, b);
    assert_eq!(p.sample(0).count, 2);
    assert_eq!(p.count(&a), 1);
}
