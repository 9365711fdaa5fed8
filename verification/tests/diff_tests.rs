//! The diff engine: the four reference diffs, self-diff, group equality.

use open_metrics_mt::diff::TenantGroups;
use open_metrics_mt::diff::diff_rule_groups;
use open_metrics_mt::diff::get_tenant_map_from_rules_list;
use open_metrics_mt::rules::GroupSpec;
use open_metrics_mt::rules::OpenMetricsRule;
use open_metrics_mt::rules::OpenMetricsRuleSpec;
use open_metrics_mt::rules::RuleSpec;
use open_metrics_mt::rules::are_groups_equal;
use open_metrics_mt::rules::groups_well_formed;
use open_metrics_mt::rules::rule_is_well_formed;

fn recording(expr: &str, record: &str) -> RuleSpec {
    RuleSpec {
        alert: None,
        annotations: None,
        labels: None,
        record: Some(String::from(record)),
        for_: None,
        expr: String::from(expr),
    }
}

fn single_tenant(tenant: &str, groups: Vec<(GroupSpec, i64)>) -> TenantGroups {
    TenantGroups { entries: vec![(String::from(tenant), groups)] }
}

fn test_fixture_3() -> TenantGroups {
    single_tenant(
        "tnt1",
        vec![(
            GroupSpec {
                name: String::from("cortexrulegroup1"),
                interval: None,
                rules: vec![
                    recording(
                        "histogram_quantile(0.99, rate(proxy_processing_duration_ms_bucket[5m]))",
                        "p99:proxy_processing_duration_ms:5m",
                    ),
                    recording(
                        "histogram_quantile(0.95, rate(proxy_processing_duration_ms_bucket[5m]))",
                        "p95:proxy_processing_duration_ms:5m",
                    ),
                ],
            },
            0,
        )],
    )
}

fn test_fixture_4() -> TenantGroups {
    single_tenant(
        "tnt1",
        vec![(
            GroupSpec {
                name: String::from("cortexrulegroup1"),
                interval: None,
                rules: vec![
                    recording(
                        "histogram_quantile(0.99, rate(proxy_processing_duration_ms_bucket[5m]))",
                        "p99:proxy_processing_duration_ms:5m",
                    ),
                    recording(
                        "histogram_quantile(0.98, rate(proxy_processing_duration_ms_bucket[5m]))",
                        "p95:proxy_processing_duration_ms:5m",
                    ),
                ],
            },
            1,
        )],
    )
}

fn test_fixture_5() -> TenantGroups {
    single_tenant(
        "tnt1",
        vec![(
            GroupSpec {
                name: String::from("cortexrulegroup2"),
                interval: None,
                rules: vec![
                    recording(
                        "histogram_quantile(0.99, rate(proxy_processing_duration_ms_bucket[5m]))",
                        "p99:proxy_processing_duration_ms:5m",
                    ),
                    recording(
                        "histogram_quantile(0.98, rate(proxy_processing_duration_ms_bucket[5m]))",
                        "p95:proxy_processing_duration_ms:5m",
                    ),
                ],
            },
            1,
        )],
    )
}

#[test]
fn test_diff_rule_groups_1_no_diff() {
    let groups1 = test_fixture_3();
    let groups2 = test_fixture_3();

    let (adds, removes) = diff_rule_groups(&groups1, &groups2);

    assert_eq!(adds.entries.len(), 0);
    assert_eq!(removes.entries.len(), 0);
}

#[test]
fn test_diff_rule_groups_2_small_diff() {
    let groups1 = test_fixture_3();
    let groups2 = test_fixture_4();

    let (adds, removes) = diff_rule_groups(&groups1, &groups2);

    assert_eq!(adds.entries.len(), 1);
    assert_eq!(removes.entries.len(), 0);

    assert_eq!(adds.entries[0].0, "tnt1");
    let (g, i) = &adds.entries[0].1[0];
    assert_eq!(g.name, "cortexrulegroup1");
    assert_eq!(i, &1i64);
}

#[test]
fn test_diff_rule_groups_3_remove_group() {
    let groups1 = test_fixture_3();
    let groups2 = TenantGroups::new();

    let (adds, removes) = diff_rule_groups(&groups1, &groups2);

    assert_eq!(adds.entries.len(), 0);
    assert_eq!(removes.entries.len(), 1);

    assert_eq!(removes.entries[0].0, "tnt1");
    let (g, i) = &removes.entries[0].1[0];
    assert_eq!(g.name, "cortexrulegroup1");
    assert_eq!(i, &0i64);
}

#[test]
fn test_diff_rule_groups_4_replace_group() {
    let groups1 = test_fixture_3();
    let groups2 = test_fixture_5();

    let (adds, removes) = diff_rule_groups(&groups1, &groups2);

    assert_eq!(adds.entries.len(), 1);
    assert_eq!(removes.entries.len(), 1);

    let (g_a, i_a) = &adds.entries[0].1[0];
    let (g_r, i_r) = &removes.entries[0].1[0];

    assert_eq!(g_a.name, "cortexrulegroup2");
    assert_eq!(i_a, &1i64);

    assert_eq!(g_r.name, "cortexrulegroup1");
    assert_eq!(i_r, &0i64);
}

#[test]
fn groups_equal_ignores_rule_order() {
    let a = GroupSpec {
        name: String::from("g"),
        interval: Some(String::from("1m")),
        rules: vec![recording("up", "r1"), recording("rate(up[5m])", "r2")],
    };
    let b = GroupSpec {
        name: String::from("g"),
        interval: Some(String::from("1m")),
        rules: vec![recording("rate(up[5m])", "r2"), recording("up", "r1")],
    };
    assert!(are_groups_equal(&a, &b));

    let c = GroupSpec {
        name: String::from("g"),
        interval: Some(String::from("1m")),
        rules: vec![recording("up", "r1"), recording("up", "r1")],
    };
    assert!(!are_groups_equal(&a, &c));
}

#[test]
fn groups_differ_on_interval_and_name() {
    let a = GroupSpec { name: String::from("g"), interval: None, rules: vec![] };
    let b = GroupSpec { name: String::from("g"), interval: Some(String::from("")), rules: vec![] };
    let c = GroupSpec { name: String::from("h"), interval: None, rules: vec![] };
    assert!(!are_groups_equal(&a, &b));
    assert!(!are_groups_equal(&a, &c));
    assert!(are_groups_equal(&a, &a.duplicate()));
}

#[test]
fn tenant_map_tags_groups_with_their_resource() {
    let g1 = GroupSpec { name: String::from("g1"), interval: None, rules: vec![] };
    let g2 = GroupSpec { name: String::from("g2"), interval: None, rules: vec![] };
    let rules = vec![
        OpenMetricsRule {
            name: Some(String::from("first")),
            has_managed_fields: false,
            spec: OpenMetricsRuleSpec {
                tenants: vec![String::from("tntA"), String::from("tntB")],
                description: None,
                groups: vec![g1.duplicate()],
            },
            status: None,
        },
        OpenMetricsRule {
            name: Some(String::from("second")),
            has_managed_fields: false,
            spec: OpenMetricsRuleSpec {
                tenants: vec![String::from("tntA")],
                description: None,
                groups: vec![g2.duplicate()],
            },
            status: None,
        },
    ];
    let map = get_tenant_map_from_rules_list(&rules);
    assert_eq!(map.entries.len(), 2);
    assert_eq!(map.entries[0].0, "tntA");
    assert_eq!(map.entries[0].1, vec![(g1.duplicate(), 0), (g2.duplicate(), 1)]);
    assert_eq!(map.entries[1].0, "tntB");
    assert_eq!(map.entries[1].1, vec![(g1, 0)]);
}

#[test]
fn a_rule_records_or_alerts_never_both() {
    let good = recording("up", "r1");
    assert!(rule_is_well_formed(&good));

    let alerting = RuleSpec { record: None, alert: Some(String::from("Down")), ..recording("up == 0", "x") };
    assert!(rule_is_well_formed(&alerting));

    let both = RuleSpec { alert: Some(String::from("Down")), ..recording("up", "r1") };
    assert!(!rule_is_well_formed(&both));

    let neither = RuleSpec { record: None, ..recording("up", "r1") };
    assert!(!rule_is_well_formed(&neither));

    let groups = vec![GroupSpec { name: String::from("g"), interval: None, rules: vec![good] }];
    assert!(groups_well_formed(&groups));
    let bad = vec![GroupSpec { name: String::from("g"), interval: None, rules: vec![neither] }];
    assert!(!groups_well_formed(&bad));
}
