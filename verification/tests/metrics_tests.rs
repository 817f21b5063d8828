use items_api::metrics::{
    bucket_index, method_of_name, route_of_pattern, Method, MetricsRegistry, Route, BUCKET_COUNT,
};

#[test]
fn method_names_resolve_to_their_labels() {
    assert_eq!(method_of_name("GET"), Some(Method::Get));
    assert_eq!(method_of_name("POST"), Some(Method::Post));
    assert_eq!(method_of_name("PUT"), Some(Method::Put));
    assert_eq!(method_of_name("DELETE"), Some(Method::Delete));
    assert_eq!(method_of_name("PATCH"), None);
    assert_eq!(method_of_name("get"), None);
}

#[test]
fn route_templates_resolve_to_their_labels() {
    assert_eq!(route_of_pattern("/health"), Some(Route::Health));
    assert_eq!(route_of_pattern("/metrics"), Some(Route::Metrics));
    assert_eq!(route_of_pattern("/items"), Some(Route::Items));
    assert_eq!(route_of_pattern("/items/{id}"), Some(Route::ItemById));
    // a resolved path is not a template and gets no label
    assert_eq!(route_of_pattern("/items/1"), None);
    assert_eq!(route_of_pattern("/other"), None);
}

#[test]
fn counter_sum_and_histogram_count_equal_requests_handled() {
    let mut reg = MetricsRegistry::new();
    reg.record(Method::Get, Route::Items, 200, 1_000_000);
    reg.record(Method::Get, Route::Items, 200, 2_000_000);
    reg.record(Method::Post, Route::Items, 201, 30_000_000);
    reg.record(Method::Get, Route::ItemById, 404, 500_000);
    reg.record(Method::Delete, Route::ItemById, 204, 7_000_000);

    let counter_sum: u64 = reg.counters().iter().map(|c| c.count).sum();
    assert_eq!(counter_sum, 5);

    let histogram_count: u64 = reg.histograms().iter().map(|h| h.count).sum();
    assert_eq!(histogram_count, 5);

    // and each series' buckets sum to its own observation count
    for h in reg.histograms() {
        let bucket_sum: u64 = h.bucket_counts.iter().sum();
        assert_eq!(bucket_sum, h.count);
    }
}

#[test]
fn repeated_label_raises_one_cell() {
    let mut reg = MetricsRegistry::new();
    reg.record(Method::Get, Route::Items, 200, 1_000_000);
    reg.record(Method::Get, Route::Items, 200, 1_000_000);
    reg.record(Method::Get, Route::Items, 500, 1_000_000);

    let counters = reg.counters();
    assert_eq!(counters.len(), 2);
    let ok_cell = counters
        .iter()
        .find(|c| c.status == 200)
        .expect("the 200 label must have a cell");
    assert_eq!(ok_cell.count, 2);
    let err_cell = counters
        .iter()
        .find(|c| c.status == 500)
        .expect("the 500 label must have a cell");
    assert_eq!(err_cell.count, 1);

    // one latency series: both status codes share (method, route)
    assert_eq!(reg.histograms().len(), 1);
    assert_eq!(reg.histograms()[0].count, 3);
}

#[test]
fn durations_land_in_their_buckets() {
    // boundaries are inclusive upper bounds in nanoseconds
    assert_eq!(bucket_index(0), 0);
    assert_eq!(bucket_index(5_000_000), 0);
    assert_eq!(bucket_index(5_000_001), 1);
    assert_eq!(bucket_index(10_000_000), 1);
    assert_eq!(bucket_index(25_000_000), 2);
    assert_eq!(bucket_index(50_000_000), 3);
    assert_eq!(bucket_index(100_000_000), 4);
    assert_eq!(bucket_index(250_000_000), 5);
    assert_eq!(bucket_index(500_000_000), 6);
    assert_eq!(bucket_index(1_000_000_000), 7);
    assert_eq!(bucket_index(2_500_000_000), 8);
    assert_eq!(bucket_index(5_000_000_000), 9);
    assert_eq!(bucket_index(10_000_000_000), 10);
    assert_eq!(bucket_index(10_000_000_001), 11);
}

#[test]
fn observation_fills_bucket_count_and_sum() {
    let mut reg = MetricsRegistry::new();
    reg.record(Method::Put, Route::ItemById, 200, 7_000_000);
    reg.record(Method::Put, Route::ItemById, 200, 11_000_000_000);

    let series = &reg.histograms()[0];
    assert_eq!(series.bucket_counts.len(), BUCKET_COUNT);
    assert_eq!(series.bucket_counts[1], 1); // 7ms sits in the (5ms, 10ms] bucket
    assert_eq!(series.bucket_counts[BUCKET_COUNT - 1], 1); // 11s overflows the 10s boundary
    assert_eq!(series.count, 2);
    assert_eq!(series.sum_nanos, 7_000_000u128 + 11_000_000_000u128);
}

#[test]
fn fresh_registry_exposes_nothing() {
    let reg = MetricsRegistry::new();
    assert!(reg.counters().is_empty());
    assert!(reg.histograms().is_empty());
}
