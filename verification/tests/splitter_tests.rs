//! The remote-write splitter: pass-through, replication, allow-listing,
//! metadata fan-out, counters.

use open_metrics_mt::dispatch::count_failures;
use open_metrics_mt::dispatch::decimal_string;
use open_metrics_mt::dispatch::response_status;
use open_metrics_mt::model::Label;
use open_metrics_mt::model::MetricMetadata;
use open_metrics_mt::model::Sample;
use open_metrics_mt::model::TimeSeries;
use open_metrics_mt::model::WriteRequest;
use open_metrics_mt::splitter::TenantWrites;
use open_metrics_mt::splitter::process_time_serie;
use open_metrics_mt::splitter::split_write_request;

fn series(labels: &[(&str, &str)], samples: &[(u64, i64)]) -> TimeSeries {
    TimeSeries {
        labels: labels
            .iter()
            .map(|(n, v)| Label { name: String::from(*n), value: String::from(*v) })
            .collect(),
        samples: samples
            .iter()
            .map(|(bits, ts)| Sample { value_bits: *bits, timestamp_ms: *ts })
            .collect(),
    }
}

fn strings(ids: &[&str]) -> Vec<String> {
    ids.iter().map(|t| String::from(*t)).collect()
}

#[test]
fn single_tenant_pass_through() {
    let request = WriteRequest {
        timeseries: vec![series(&[("tid", "alpha")], &[(1, 10), (2, 20)])],
        metadata: vec![],
    };
    let (split, _tenants, _labels) = split_write_request(
        &request,
        &strings(&["tid"]),
        &strings(&[]),
        false,
        &strings(&[]),
    );
    assert_eq!(split.entries.len(), 1);
    assert_eq!(split.entries[0].0, "alpha");
    assert_eq!(split.entries[0].1.timeseries.len(), 1);
    assert_eq!(split.entries[0].1.timeseries[0].samples.len(), 2);

    // Both sends succeed: the proxy answers 200 with body "0".
    let failures = count_failures(&vec![Ok(200)]);
    assert_eq!(failures, 0);
    assert_eq!(response_status(failures), 200);
    assert_eq!(decimal_string(failures as u64), "0");
}

#[test]
fn replication_fans_the_stream_out() {
    let request = WriteRequest {
        timeseries: vec![
            series(&[("tid", "alpha")], &[(1, 1)]),
            series(&[("tid", "beta")], &[(2, 2)]),
        ],
        metadata: vec![],
    };
    let (split, _tenants, _labels) = split_write_request(
        &request,
        &strings(&["tid"]),
        &strings(&[]),
        false,
        &strings(&["mirror"]),
    );
    assert_eq!(split.entries.len(), 3);
    assert_eq!(split.entries[0].0, "mirror");
    assert_eq!(split.entries[1].0, "alpha");
    assert_eq!(split.entries[2].0, "beta");
    assert_eq!(split.entries[0].1.timeseries.len(), 2);
    assert_eq!(split.entries[1].1.timeseries.len(), 1);
    assert_eq!(split.entries[2].1.timeseries.len(), 1);
}

#[test]
fn allow_list_filters_unknown_tenants_out() {
    let request = WriteRequest {
        timeseries: vec![series(&[("tid", "gamma")], &[(1, 1)])],
        metadata: vec![],
    };
    let (split, _tenants, _labels) = split_write_request(
        &request,
        &strings(&["tid"]),
        &strings(&["alpha"]),
        true,
        &strings(&[]),
    );
    assert_eq!(split.entries.len(), 0);

    let failures = count_failures(&vec![]);
    assert_eq!(response_status(failures), 200);
    assert_eq!(decimal_string(failures as u64), "0");
}

#[test]
fn allow_list_lets_listed_tenants_through() {
    let request = WriteRequest {
        timeseries: vec![
            series(&[("tid", "alpha")], &[(1, 1)]),
            series(&[("tid", "gamma")], &[(2, 2)]),
        ],
        metadata: vec![],
    };
    let (split, _tenants, _labels) = split_write_request(
        &request,
        &strings(&["tid"]),
        &strings(&["alpha"]),
        true,
        &strings(&[]),
    );
    assert_eq!(split.entries.len(), 1);
    assert_eq!(split.entries[0].0, "alpha");
}

#[test]
fn metadata_is_replicated_to_every_tenant() {
    let md = MetricMetadata {
        metric_type: 1,
        metric_family_name: String::from("http_requests_total"),
        help: String::from("requests seen"),
        unit: String::from(""),
    };
    let request = WriteRequest {
        timeseries: vec![
            series(&[("tid", "alpha")], &[(1, 1)]),
            series(&[("tid", "beta")], &[(2, 2)]),
        ],
        metadata: vec![md],
    };
    let (split, _tenants, _labels) = split_write_request(
        &request,
        &strings(&["tid"]),
        &strings(&[]),
        false,
        &strings(&[]),
    );
    assert_eq!(split.entries.len(), 2);
    for (_tenant, per_tenant) in &split.entries {
        assert_eq!(per_tenant.metadata.len(), 1);
        assert_eq!(per_tenant.metadata[0].metric_family_name, "http_requests_total");
    }
}

#[test]
fn a_series_without_tenant_labels_goes_nowhere() {
    let request = WriteRequest {
        timeseries: vec![series(&[("job", "node")], &[(1, 1)])],
        metadata: vec![],
    };
    let (split, tenants, labels) = split_write_request(
        &request,
        &strings(&["tid"]),
        &strings(&[]),
        false,
        &strings(&[]),
    );
    assert_eq!(split.entries.len(), 0);
    assert_eq!(tenants, 0);
    assert_eq!(labels, 1);
}

#[test]
fn counters_count_matches_and_scans() {
    let ts = series(&[("tid", "alpha"), ("job", "node")], &[(1, 1)]);
    let mut data = TenantWrites::new();
    let (tenants, labels) = process_time_serie(
        &ts,
        &strings(&["tid", "instance"]),
        &strings(&[]),
        false,
        &strings(&[]),
        &mut data,
    );
    // Two labels visited, one of which names a tenant.
    assert_eq!(tenants, 1);
    assert_eq!(labels, 2);
    assert_eq!(data.entries.len(), 1);
}

#[test]
fn duplicate_tenants_get_one_copy() {
    // The same tenant named by a label and by replication gets the series
    // once.
    let request = WriteRequest {
        timeseries: vec![series(&[("tid", "mirror")], &[(1, 1)])],
        metadata: vec![],
    };
    let (split, _tenants, _labels) = split_write_request(
        &request,
        &strings(&["tid"]),
        &strings(&[]),
        false,
        &strings(&["mirror"]),
    );
    assert_eq!(split.entries.len(), 1);
    assert_eq!(split.entries[0].1.timeseries.len(), 1);
}

#[test]
fn decimal_strings_are_exact() {
    assert_eq!(decimal_string(0), "0");
    assert_eq!(decimal_string(7), "7");
    assert_eq!(decimal_string(12345), "12345");
    assert_eq!(decimal_string(18446744073709551615), "18446744073709551615");
}

#[test]
fn failures_follow_the_status_policy() {
    let outcomes = vec![Ok(200), Ok(204), Ok(404), Ok(400), Ok(500), Ok(302), Err(500)];
    // 2xx and 4xx answers are not failures; 5xx, 3xx and transport errors are.
    assert_eq!(count_failures(&outcomes), 3);
    assert_eq!(response_status(3), 500);
    assert_eq!(decimal_string(3), "3");
}
