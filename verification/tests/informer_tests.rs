//! The informer side: tick planning, resource naming, resource plans.

use open_metrics_mt::crud::RemovalPlan;
use open_metrics_mt::crud::plan_create_or_update;
use open_metrics_mt::crud::plan_remove;
use open_metrics_mt::crud::resource_updated;
use open_metrics_mt::diff::TenantGroups;
use open_metrics_mt::naming::k8s_resource_name;
use open_metrics_mt::reconcile::plan_tracker_tick;
use open_metrics_mt::reconcile::plan_updater_tick;
use open_metrics_mt::rules::GroupSpec;
use open_metrics_mt::rules::OpenMetricsRule;
use open_metrics_mt::rules::OpenMetricsRuleSpec;
use open_metrics_mt::rules::OpenMetricsRuleStatus;
use open_metrics_mt::rules::RuleSpec;

fn group(name: &str) -> GroupSpec {
    GroupSpec {
        name: String::from(name),
        interval: None,
        rules: vec![RuleSpec {
            alert: None,
            annotations: None,
            labels: None,
            record: Some(String::from("r")),
            for_: None,
            expr: String::from("up"),
        }],
    }
}

fn bundle(name: &str, tenants: &[&str], groups: Vec<GroupSpec>) -> OpenMetricsRule {
    OpenMetricsRule {
        name: Some(String::from(name)),
        has_managed_fields: true,
        spec: OpenMetricsRuleSpec {
            tenants: tenants.iter().map(|t| String::from(*t)).collect(),
            description: None,
            groups,
        },
        status: None,
    }
}

#[test]
fn tracker_tick_plans_the_missing_group() {
    // The ruler has g1 for tntA; the cluster has no bundle at all.
    let mut ruler = TenantGroups::new();
    ruler.entries.push((String::from("tntA"), vec![(group("g1"), -1)]));
    let k8s_rules: Vec<OpenMetricsRule> = Vec::new();

    let (updates, removals) = plan_tracker_tick(&k8s_rules, &ruler);
    assert_eq!(updates.entries.len(), 1);
    assert_eq!(updates.entries[0].0, "tntA");
    assert_eq!(updates.entries[0].1, vec![(group("g1"), -1)]);
    assert_eq!(removals.entries.len(), 0);

    // The planned apply synthesizes a fresh single-group bundle with its
    // status already marked.
    let (resource_name, rule) = plan_create_or_update(&k8s_rules, &String::from("tntA"),
        &group("g1"));
    assert!(resource_name.starts_with("tntA-"));
    assert_eq!(resource_name.len(), "tntA-".len() + 40);
    assert!(resource_name["tntA-".len()..].chars().all(|c| c.is_ascii_hexdigit()));
    assert_eq!(rule.name, Some(resource_name));
    assert_eq!(rule.spec.tenants, vec![String::from("tntA")]);
    assert_eq!(rule.spec.groups, vec![group("g1")]);
    assert_eq!(rule.status, Some(OpenMetricsRuleStatus { ruler_updated: true }));
    assert!(!rule.has_managed_fields);
}

#[test]
fn updater_tick_plans_the_ruler_removal_when_enabled() {
    // The cluster has no bundle with g2; the ruler still has it for tntA.
    let mut ruler = TenantGroups::new();
    ruler.entries.push((String::from("tntA"), vec![(group("g2"), -1)]));
    let k8s_rules: Vec<OpenMetricsRule> = Vec::new();

    let (upserts, removals) = plan_updater_tick(&k8s_rules, &ruler, false);
    assert_eq!(upserts.entries.len(), 0);
    assert_eq!(removals.entries.len(), 1);
    assert_eq!(removals.entries[0].0, "tntA");
    assert_eq!(removals.entries[0].1[0].0.name, "g2");

    // With removal disabled the same tick removes nothing.
    let (_, none_removed) = plan_updater_tick(&k8s_rules, &ruler, true);
    assert_eq!(none_removed.entries.len(), 0);
}

#[test]
fn updater_tick_plans_the_missing_upsert() {
    // The cluster has g1 for tntA; the ruler is empty.
    let k8s_rules = vec![bundle("b1", &["tntA"], vec![group("g1")])];
    let ruler = TenantGroups::new();
    let (upserts, removals) = plan_updater_tick(&k8s_rules, &ruler, false);
    assert_eq!(upserts.entries.len(), 1);
    assert_eq!(upserts.entries[0].0, "tntA");
    assert_eq!(upserts.entries[0].1, vec![(group("g1"), 0)]);
    assert_eq!(removals.entries.len(), 0);
}

#[test]
fn resource_names_are_stable_under_dash_substitution() {
    let a = k8s_resource_name(&String::from("tntA"), &String::from("my_group_name"));
    let b = k8s_resource_name(&String::from("tntA"), &String::from("my-group-name"));
    let c = k8s_resource_name(&String::from("tntA"), &String::from("my-group-name"));
    assert_eq!(a, b);
    assert_eq!(b, c);
    let other_tenant = k8s_resource_name(&String::from("tntB"), &String::from("my_group_name"));
    assert_ne!(a, other_tenant);
    let other_group = k8s_resource_name(&String::from("tntA"), &String::from("another"));
    assert_ne!(a, other_group);
}

#[test]
fn an_owned_group_is_overwritten_in_place() {
    let old = bundle("b1", &["tntA"], vec![group("g0"), group("g1")]);
    let changed = GroupSpec { interval: Some(String::from("30s")), ..group("g1") };
    let (resource_name, rule) = plan_create_or_update(&vec![old], &String::from("tntA"),
        &changed);
    assert_eq!(resource_name, "b1");
    assert_eq!(rule.spec.groups.len(), 2);
    assert_eq!(rule.spec.groups[0], group("g0"));
    assert_eq!(rule.spec.groups[1], changed);
    assert_eq!(rule.status, Some(OpenMetricsRuleStatus { ruler_updated: true }));
    assert!(!rule.has_managed_fields);
}

#[test]
fn removing_the_last_group_deletes_the_bundle() {
    let rules = vec![bundle("b1", &["tntA"], vec![group("g1")])];
    let plan = plan_remove(&rules, &String::from("tntA"), &String::from("g1"));
    assert_eq!(plan, RemovalPlan::Delete(String::from("b1")));
}

#[test]
fn removing_one_of_two_groups_shrinks_the_bundle() {
    let rules = vec![bundle("b1", &["tntA"], vec![group("g1"), group("g2")])];
    let plan = plan_remove(&rules, &String::from("tntA"), &String::from("g1"));
    match plan {
        RemovalPlan::Apply(name, rule) => {
            assert_eq!(name, "b1");
            assert_eq!(rule.spec.groups, vec![group("g2")]);
            assert_eq!(rule.status, Some(OpenMetricsRuleStatus { ruler_updated: true }));
        },
        other => panic!("unexpected plan: {:?}", other),
    }
}

#[test]
fn removing_an_unknown_group_plans_nothing() {
    let rules = vec![bundle("b1", &["tntB"], vec![group("g1")])];
    let plan = plan_remove(&rules, &String::from("tntA"), &String::from("g1"));
    assert_eq!(plan, RemovalPlan::NotFound);
}

#[test]
fn every_apply_path_stamps_the_status() {
    let prepared = resource_updated(bundle("b1", &["tntA"], vec![group("g1")]));
    assert_eq!(prepared.status, Some(OpenMetricsRuleStatus { ruler_updated: true }));
    assert!(!prepared.has_managed_fields);
    assert_eq!(prepared.name, Some(String::from("b1")));
}

#[test]
fn converged_stores_plan_an_empty_tracker_tick() {
    // After the updater has settled the ruler, the tracker finds nothing.
    let k8s_rules = vec![bundle("b1", &["tntA"], vec![group("g1")])];
    let mut ruler = TenantGroups::new();
    ruler.entries.push((String::from("tntA"), vec![(group("g1"), -1)]));
    let (updates, _removals) = plan_tracker_tick(&k8s_rules, &ruler);
    assert_eq!(updates.entries.len(), 0);
}
