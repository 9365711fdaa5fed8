//! Tenant discovery: distributor answers, resource tenant sets, ruler
//! list answers.

use open_metrics_mt::discovery::TickError;
use open_metrics_mt::discovery::discover_tenant_ids;
use open_metrics_mt::discovery::extract_tenants;
use open_metrics_mt::discovery::insert_tenant_groups;
use open_metrics_mt::discovery::ruler_answer_outcome;
use open_metrics_mt::discovery::ruler_list_outcome;
use open_metrics_mt::discovery::page_step;
use open_metrics_mt::discovery::PageAction;
use open_metrics_mt::diff::TenantGroups;
use open_metrics_mt::rules::GroupSpec;
use open_metrics_mt::rules::OpenMetricsRule;
use open_metrics_mt::rules::OpenMetricsRuleSpec;
use open_metrics_mt::rules::RuleSpec;

use std::collections::HashSet;

fn recording(expr: &str, record: &str) -> RuleSpec {
    RuleSpec {
        alert: None,
        annotations: None,
        labels: None,
        record: Some(String::from(record)),
        for_: None,
        expr: String::from(expr),
    }
}

fn group_1() -> GroupSpec {
    GroupSpec {
        name: String::from("cortexrulegroup1"),
        interval: None,
        rules: vec![
            recording(
                "histogram_quantile(0.99, rate(proxy_processing_duration_ms_bucket[5m]))",
                "p99:proxy_processing_duration_ms:5m",
            ),
            recording(
                "histogram_quantile(0.95, rate(proxy_processing_duration_ms_bucket[5m]))",
                "p95:proxy_processing_duration_ms:5m",
            ),
        ],
    }
}

fn group_2() -> GroupSpec {
    GroupSpec {
        name: String::from("cortexrulegroup2"),
        interval: None,
        rules: vec![
            recording(
                "histogram_quantile(0.5, rate(proxy_processing_duration_ms_bucket[5m]))",
                "p50:proxy_processing_duration_ms:5m",
            ),
            recording("sum without(code) (proxy_processing_duration_ms)", "proxyallcodes"),
        ],
    }
}

fn rule_resource(name: &str, tenants: &[&str]) -> OpenMetricsRule {
    OpenMetricsRule {
        name: Some(String::from(name)),
        has_managed_fields: false,
        spec: OpenMetricsRuleSpec {
            tenants: tenants.iter().map(|t| String::from(*t)).collect(),
            description: None,
            groups: Vec::new(),
        },
        status: None,
    }
}

#[test]
fn test_load_tenants() {
    let user_ids = vec![
        String::from("0"),
        String::from("tntimulpey0"),
        String::from("tnt5ihx8vw2"),
        String::from("tntgwgis7t4"),
    ];
    let tenant_vec = extract_tenants(user_ids);
    assert!(tenant_vec.contains(&"tntimulpey0".to_owned()));
    assert!(tenant_vec.contains(&"tnt5ihx8vw2".to_owned()));
    assert!(tenant_vec.contains(&"tntgwgis7t4".to_owned()));
    assert_eq!(tenant_vec.len(), 3);
}

#[test]
fn test_load_tenants_zero_tenant() {
    let tenant_vec = extract_tenants(vec![String::from("0")]);
    assert_eq!(tenant_vec.len(), 0);
}

#[test]
fn test_load_tenants_empty() {
    let tenant_vec = extract_tenants(vec![String::from("0")]);
    assert_eq!(tenant_vec.len(), 0);
}

#[test]
fn test_discover_ruler_rules() {
    // The ruler answers one namespace per tenant; the discovery flattens
    // the namespaces and tags every group as ruler-sourced.
    let body_1 = vec![(String::from("test"), vec![group_1()])];
    let body_2 = vec![(String::from("test"), vec![group_1(), group_2()])];

    let mut found_rule_groups = TenantGroups::new();
    let empty_text = String::new();
    let groups_1 = ruler_list_outcome(200, Some(body_1), &empty_text).unwrap();
    insert_tenant_groups(&mut found_rule_groups, &String::from("tnt1"), groups_1);
    let groups_2 = ruler_list_outcome(200, Some(body_2), &empty_text).unwrap();
    insert_tenant_groups(&mut found_rule_groups, &String::from("tnt2"), groups_2);

    let specs_expected_tenant_1 = vec![(group_1(), -1i64)];
    let specs_expected_tenant_2 = vec![(group_1(), -1i64), (group_2(), -1i64)];

    assert_eq!(found_rule_groups.entries.len(), 2);
    assert_eq!(found_rule_groups.entries[0].0, "tnt1");
    assert_eq!(found_rule_groups.entries[0].1, specs_expected_tenant_1);
    assert_eq!(found_rule_groups.entries[1].0, "tnt2");
    assert_eq!(found_rule_groups.entries[1].1, specs_expected_tenant_2);
}

#[test]
fn ruler_answer_no_rule_groups_is_empty() {
    let body = String::from("no rule groups found");
    let groups = ruler_list_outcome(404, None, &body).unwrap();
    assert_eq!(groups.len(), 0);
}

#[test]
fn ruler_answer_other_404_aborts_the_tick() {
    let body = String::from("not found");
    assert_eq!(ruler_list_outcome(404, None, &body), Err(TickError::Transient));
}

#[test]
fn ruler_answer_bad_yaml_aborts_the_tick() {
    let body = String::from("{");
    assert_eq!(ruler_list_outcome(200, None, &body), Err(TickError::MalformedRuleYaml));
}

#[test]
fn ruler_answer_server_error_aborts_the_tick() {
    let body = String::new();
    assert_eq!(ruler_list_outcome(500, None, &body), Err(TickError::Transient));
}

#[test]
fn test_discover_open_metrics_rules() {
    let discovered_rules = vec![
        rule_resource("test1", &["tenant7", "tenant8"]),
        rule_resource("test19", &["tenant1", "tenant2"]),
    ];
    assert_eq!(discovered_rules.len(), 2);

    let discovered_tenant_ids: HashSet<String> =
        discover_tenant_ids(discovered_rules).into_iter().collect();

    let expected_tenants = vec![
        String::from("tenant1"),
        String::from("tenant2"),
        String::from("tenant7"),
        String::from("tenant8"),
    ];
    let expected_tenant_ids: HashSet<String> = expected_tenants.into_iter().collect();
    assert_eq!(discovered_tenant_ids, expected_tenant_ids);
}

#[test]
fn test_get_tenant_ids() {
    let tenants_rules = vec![
        rule_resource("test1", &["tenant7", "tenant8"]),
        rule_resource("test19", &["tenant1", "tenant2"]),
    ];
    let discovered_tenant_ids: HashSet<String> =
        discover_tenant_ids(tenants_rules).into_iter().collect();

    let expected_tenants = vec![
        String::from("tenant1"),
        String::from("tenant2"),
        String::from("tenant7"),
        String::from("tenant8"),
    ];
    let expected_tenant_ids: HashSet<String> = expected_tenants.into_iter().collect();
    assert_eq!(discovered_tenant_ids, expected_tenant_ids);
}

#[test]
fn discovered_tenants_are_deduplicated_in_order() {
    let rules = vec![
        rule_resource("a", &["t2", "t1"]),
        rule_resource("b", &["t1", "t3"]),
    ];
    assert_eq!(discover_tenant_ids(rules), vec![
        String::from("t2"),
        String::from("t1"),
        String::from("t3"),
    ]);
}

#[test]
fn duplicate_user_ids_are_returned_once() {
    let tenant_vec = extract_tenants(vec![
        String::from("tntA"),
        String::from("0"),
        String::from("tntB"),
        String::from("tntA"),
        String::from("tntB"),
    ]);
    assert_eq!(tenant_vec, vec![String::from("tntA"), String::from("tntB")]);
}

#[test]
fn a_ruler_transport_failure_aborts_the_tick() {
    assert_eq!(ruler_answer_outcome(None), Err(TickError::Transient));
    let answered = ruler_answer_outcome(Some((200, Some(Vec::new()), String::new())));
    assert_eq!(answered, Ok(Vec::new()));
}

#[test]
fn the_listing_walk_follows_tokens_and_fails_only_on_the_first_page() {
    assert_eq!(
        page_step(true, true, Some(String::from("next"))),
        Ok(PageAction::Continue(String::from("next")))
    );
    assert_eq!(page_step(true, false, Some(String::new())), Ok(PageAction::Done));
    assert_eq!(page_step(true, true, None), Ok(PageAction::Done));
    assert_eq!(page_step(false, false, None), Ok(PageAction::Done));
    assert_eq!(page_step(false, true, None), Err(TickError::Transient));
}
