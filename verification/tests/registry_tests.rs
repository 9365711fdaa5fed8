//! The tenant registry: observation, initial tenants, snapshots.

use open_metrics_mt::registry::IngestionTenantController;

use std::collections::HashSet;

fn strings(ids: &[&str]) -> Vec<String> {
    ids.iter().map(|t| String::from(*t)).collect()
}

fn snapshot_set(controller: &IngestionTenantController) -> HashSet<String> {
    controller.get_tenants().iter().cloned().collect()
}

#[test]
fn test_controller_tenant_added() {
    let mut controller = IngestionTenantController::new();
    controller.set_k8s_poll_delay(800);
    controller.observe(strings(&["tenant7", "tenant8", "tenant1", "tenant2"]));

    let expected_tenants: HashSet<String> = strings(&[
        "tenant1", "tenant2", "tenant7", "tenant8",
    ]).into_iter().collect();
    assert_eq!(expected_tenants, snapshot_set(&controller));
}

#[test]
fn test_controller_tenant_removed() {
    let mut controller = IngestionTenantController::new();
    controller.set_k8s_poll_delay(800);
    controller.observe(strings(&["tenant1", "tenant2", "tenant7", "tenant8"]));

    let expected_tenants: HashSet<String> = strings(&[
        "tenant1", "tenant2", "tenant7", "tenant8",
    ]).into_iter().collect();
    assert_eq!(expected_tenants, snapshot_set(&controller));

    controller.observe(strings(&["tenant7", "tenant9"]));

    let expected_tenants_2: HashSet<String> = strings(&["tenant7", "tenant9"])
        .into_iter().collect();
    assert_eq!(expected_tenants_2, snapshot_set(&controller));
}

#[test]
fn observing_twice_changes_nothing() {
    let mut once = IngestionTenantController::new();
    once.set_initial_allowed_tenants(strings(&["fixed"]));
    once.observe(strings(&["a", "b", "fixed", "a"]));
    let after_once = once.get_tenants().clone();

    once.observe(strings(&["a", "b", "fixed", "a"]));
    assert_eq!(&after_once, once.get_tenants());
}

#[test]
fn snapshot_keeps_initial_tenants_first_and_discovery_order() {
    let mut controller = IngestionTenantController::new();
    controller.set_initial_allowed_tenants(strings(&["zeta", "alpha", "zeta"]));
    assert_eq!(controller.get_tenants(), &strings(&["zeta", "alpha"]));

    controller.observe(strings(&["beta", "alpha", "gamma"]));
    assert_eq!(controller.get_tenants(), &strings(&["zeta", "alpha", "beta", "gamma"]));

    // A tenant that discovery no longer reports is dropped; initial ones stay.
    controller.observe(strings(&["gamma"]));
    assert_eq!(controller.get_tenants(), &strings(&["zeta", "alpha", "gamma"]));
}

#[test]
fn clean_forgets_everything_but_the_poll_delay() {
    let mut controller = IngestionTenantController::new();
    controller.set_k8s_poll_delay(120_000);
    controller.observe(strings(&["a"]));
    controller.set_stopping();
    controller.clean();
    assert_eq!(controller.get_tenants().len(), 0);
}
