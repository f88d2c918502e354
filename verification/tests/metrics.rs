use metrics_core::counter::CountMetrics;
use metrics_core::histogram::{exponential_buckets, HisgMetrics, Histogram};
use metrics_core::labels::{
    latency_labels, script_labels, test_labels, AppInfo, AppLabels, LatencyInfo, LatencyLabels,
    Method,
};
use metrics_core::registry::Registry;

fn sample_latency_labels() -> LatencyLabels {
    LatencyLabels {
        method: Method::Post,
        typ: "t".to_string(),
        module: "m".to_string(),
        status: 2,
    }
}

#[test]
fn counter_three_increments() {
    let mut metrics = CountMetrics::new();
    let labels = test_labels();
    metrics.inc_requests(&labels);
    metrics.inc_requests(&labels);
    metrics.inc_requests(&labels);
    assert_eq!(metrics.request_count(&labels), 3);
    assert_eq!(metrics.tracked_len(), 1);
}

#[test]
fn counter_isolation_between_label_sets() {
    let mut metrics = CountMetrics::new();
    let a = test_labels();
    let b = AppLabels {
        method: Method::Post,
        script_name: "other".to_string(),
        namespace: "test".to_string(),
        app: "test".to_string(),
    };
    metrics.inc_requests(&a);
    metrics.inc_requests(&b);
    metrics.inc_requests(&a);
    assert_eq!(metrics.request_count(&a), 2);
    assert_eq!(metrics.request_count(&b), 1);
    assert_eq!(metrics.tracked_len(), 2);
}

#[test]
fn counter_first_use_creates_single_entry() {
    let mut metrics = CountMetrics::new();
    let labels = test_labels();
    assert_eq!(metrics.request_count(&labels), 0);
    metrics.inc_requests(&labels);
    metrics.inc_requests(&labels);
    assert_eq!(metrics.tracked_len(), 1);
    assert_eq!(metrics.request_count(&labels), 2);
}

#[test]
fn exponential_bounds_formula() {
    let bounds = exponential_buckets(10, 5, 5);
    assert_eq!(bounds, vec![10, 50, 250, 1250, 6250]);
    let short = exponential_buckets(1, 2, 4);
    assert_eq!(short, vec![1, 2, 4, 8]);
}

#[test]
fn histogram_low_value_falls_into_first_bucket() {
    let mut metrics = HisgMetrics::new(exponential_buckets(10, 5, 5));
    let ll = sample_latency_labels();
    metrics.hisg_request(&ll, 7);
    assert_eq!(metrics.latency_bucket(&ll, 0), 1);
    for j in 1..6 {
        assert_eq!(metrics.latency_bucket(&ll, j), 0);
    }
    assert_eq!(metrics.latency_sum(&ll), 7);
    assert_eq!(metrics.latency_count(&ll), 1);
}

#[test]
fn histogram_high_value_falls_into_overflow_bucket() {
    let mut metrics = HisgMetrics::new(exponential_buckets(10, 5, 5));
    let ll = sample_latency_labels();
    metrics.hisg_request(&ll, 10000);
    for j in 0..5 {
        assert_eq!(metrics.latency_bucket(&ll, j), 0);
    }
    assert_eq!(metrics.latency_bucket(&ll, 5), 1);
    assert_eq!(metrics.latency_sum(&ll), 10000);
    assert_eq!(metrics.latency_count(&ll), 1);
}

#[test]
fn histogram_boundary_value_falls_into_its_bucket() {
    let mut metrics = HisgMetrics::new(exponential_buckets(10, 5, 5));
    let ll = sample_latency_labels();
    metrics.hisg_request(&ll, 10);
    assert_eq!(metrics.latency_bucket(&ll, 0), 1);
    metrics.hisg_request(&ll, 11);
    assert_eq!(metrics.latency_bucket(&ll, 1), 1);
}

#[test]
fn histogram_negative_value_falls_into_first_bucket() {
    let mut metrics = HisgMetrics::new(exponential_buckets(10, 5, 5));
    let ll = sample_latency_labels();
    metrics.hisg_request(&ll, -5);
    assert_eq!(metrics.latency_bucket(&ll, 0), 1);
    assert_eq!(metrics.latency_sum(&ll), -5);
    assert_eq!(metrics.latency_count(&ll), 1);
}

#[test]
fn histogram_sum_and_count_accumulate() {
    let mut metrics = HisgMetrics::new(exponential_buckets(10, 5, 5));
    let ll = sample_latency_labels();
    metrics.hisg_request(&ll, 7);
    metrics.hisg_request(&ll, 10000);
    assert_eq!(metrics.latency_sum(&ll), 10007);
    assert_eq!(metrics.latency_count(&ll), 2);
    assert_eq!(metrics.latency_bucket(&ll, 0), 1);
    assert_eq!(metrics.latency_bucket(&ll, 5), 1);
    assert_eq!(metrics.tracked_len(), 1);
}

#[test]
fn histogram_families_keep_label_sets_apart() {
    let mut metrics = HisgMetrics::new(exponential_buckets(10, 5, 5));
    let a = sample_latency_labels();
    let b = LatencyLabels {
        method: Method::Post,
        typ: "t".to_string(),
        module: "other".to_string(),
        status: 2,
    };
    metrics.hisg_request(&a, 7);
    metrics.hisg_request(&b, 50);
    assert_eq!(metrics.latency_count(&a), 1);
    assert_eq!(metrics.latency_count(&b), 1);
    assert_eq!(metrics.latency_bucket(&a, 0), 1);
    assert_eq!(metrics.latency_bucket(&b, 1), 1);
    assert_eq!(metrics.tracked_len(), 2);
}

#[test]
fn direct_histogram_observation() {
    let mut h = Histogram::new(exponential_buckets(10, 5, 5));
    assert_eq!(h.num_buckets(), 6);
    h.observe(250);
    assert_eq!(h.bucket_at(2), 1);
    assert_eq!(h.count(), 1);
    assert_eq!(h.sum(), 250);
}

#[test]
fn label_constructors_fill_the_schema() {
    let t = test_labels();
    assert_eq!(t.method, Method::Get);
    assert_eq!(t.script_name, "test-script");
    assert_eq!(t.namespace, "test");
    assert_eq!(t.app, "test");

    let info = AppInfo {
        script_name: "s".to_string(),
        namespace: "n".to_string(),
        app: "a".to_string(),
    };
    let l = script_labels(&info);
    assert_eq!(l.method, Method::Post);
    assert_eq!(l.script_name, "s");
    assert_eq!(l.namespace, "n");
    assert_eq!(l.app, "a");

    let li = LatencyInfo {
        duration: 12,
        typ: "t".to_string(),
        module: "m".to_string(),
        status: -3,
    };
    let ll = latency_labels(&li);
    assert_eq!(ll.method, Method::Post);
    assert_eq!(ll.typ, "t");
    assert_eq!(ll.module, "m");
    assert_eq!(ll.status, -3);
}

fn sample_registry() -> (Registry, usize, usize) {
    let mut registry = Registry::new();
    let counters = registry.register_counter(
        "requests".to_string(),
        "Count of requests".to_string(),
        CountMetrics::new(),
    );
    let histograms = registry.register_histogram(
        "latency".to_string(),
        "Record latency".to_string(),
        HisgMetrics::new(exponential_buckets(10, 5, 5)),
    );
    (registry, counters, histograms)
}

#[test]
fn scrape_shows_three_increments() {
    let (mut registry, counters, _) = sample_registry();
    let labels = test_labels();
    registry.inc_requests(counters, &labels);
    registry.inc_requests(counters, &labels);
    registry.inc_requests(counters, &labels);
    assert_eq!(registry.counter_value(counters, &labels), 3);
    let body = registry.encode().unwrap();
    let expected = "# HELP requests Count of requests\n# TYPE requests counter\nrequests_total{method=\"Get\",script_name=\"test-script\",namespace=\"test\",app=\"test\"} 3\n# HELP latency Record latency\n# TYPE latency histogram\n# EOF\n";
    assert_eq!(body, expected);
}

#[test]
fn scrape_renders_histogram_state() {
    let (mut registry, _, histograms) = sample_registry();
    let ll = sample_latency_labels();
    registry.observe_latency(histograms, &ll, 7);
    registry.observe_latency(histograms, &ll, 10000);
    let body = registry.encode().unwrap();
    let mut expected = String::new();
    expected.push_str("# HELP requests Count of requests\n");
    expected.push_str("# TYPE requests counter\n");
    expected.push_str("# HELP latency Record latency\n");
    expected.push_str("# TYPE latency histogram\n");
    expected.push_str("latency_bucket{method=\"Post\",type=\"t\",module=\"m\",status=\"2\",le=\"10\"} 1\n");
    expected.push_str("latency_bucket{method=\"Post\",type=\"t\",module=\"m\",status=\"2\",le=\"50\"} 1\n");
    expected.push_str("latency_bucket{method=\"Post\",type=\"t\",module=\"m\",status=\"2\",le=\"250\"} 1\n");
    expected.push_str("latency_bucket{method=\"Post\",type=\"t\",module=\"m\",status=\"2\",le=\"1250\"} 1\n");
    expected.push_str("latency_bucket{method=\"Post\",type=\"t\",module=\"m\",status=\"2\",le=\"6250\"} 1\n");
    expected.push_str("latency_bucket{method=\"Post\",type=\"t\",module=\"m\",status=\"2\",le=\"+Inf\"} 2\n");
    expected.push_str("latency_sum{method=\"Post\",type=\"t\",module=\"m\",status=\"2\"} 10007\n");
    expected.push_str("latency_count{method=\"Post\",type=\"t\",module=\"m\",status=\"2\"} 2\n");
    expected.push_str("# EOF\n");
    assert_eq!(body, expected);
}

#[test]
fn scrape_renders_negative_status_and_sum() {
    let (mut registry, _, histograms) = sample_registry();
    let ll = LatencyLabels {
        method: Method::Post,
        typ: "t".to_string(),
        module: "m".to_string(),
        status: -3,
    };
    registry.observe_latency(histograms, &ll, -5);
    let body = registry.encode().unwrap();
    let mut expected = String::new();
    expected.push_str("# HELP requests Count of requests\n");
    expected.push_str("# TYPE requests counter\n");
    expected.push_str("# HELP latency Record latency\n");
    expected.push_str("# TYPE latency histogram\n");
    expected.push_str("latency_bucket{method=\"Post\",type=\"t\",module=\"m\",status=\"-3\",le=\"10\"} 1\n");
    expected.push_str("latency_bucket{method=\"Post\",type=\"t\",module=\"m\",status=\"-3\",le=\"50\"} 1\n");
    expected.push_str("latency_bucket{method=\"Post\",type=\"t\",module=\"m\",status=\"-3\",le=\"250\"} 1\n");
    expected.push_str("latency_bucket{method=\"Post\",type=\"t\",module=\"m\",status=\"-3\",le=\"1250\"} 1\n");
    expected.push_str("latency_bucket{method=\"Post\",type=\"t\",module=\"m\",status=\"-3\",le=\"6250\"} 1\n");
    expected.push_str("latency_bucket{method=\"Post\",type=\"t\",module=\"m\",status=\"-3\",le=\"+Inf\"} 1\n");
    expected.push_str("latency_sum{method=\"Post\",type=\"t\",module=\"m\",status=\"-3\"} -5\n");
    expected.push_str("latency_count{method=\"Post\",type=\"t\",module=\"m\",status=\"-3\"} 1\n");
    expected.push_str("# EOF\n");
    assert_eq!(body, expected);
}

#[test]
fn scrape_twice_without_observations_is_identical() {
    let (mut registry, counters, histograms) = sample_registry();
    registry.inc_requests(counters, &test_labels());
    registry.observe_latency(histograms, &sample_latency_labels(), 42);
    let first = registry.encode().unwrap();
    let second = registry.encode().unwrap();
    assert_eq!(first, second);
}

#[test]
fn scrape_of_empty_registry_is_just_the_terminator() {
    let registry = Registry::new();
    assert_eq!(registry.encode().unwrap(), "# EOF\n");
}
