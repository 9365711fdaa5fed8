//! Planned changes to the cluster rule resources.
//!
//! The tracker writes ruler-sourced groups back to the cluster.  Which
//! resource to write, under which name, and with which contents is decided
//! here, from the listed resources alone; performing the apply or delete
//! against the cluster API is the caller's job.  Every planned apply
//! carries a fresh `ruler_updated` status and no server-managed fields.

use vstd::prelude::*;

use crate::naming::spec_resource_name;
use crate::rules::GroupSpec;
use crate::rules::GroupSpecV;
use crate::rules::OpenMetricsRule;
use crate::rules::OpenMetricsRuleSpec;
use crate::rules::OpenMetricsRuleSpecV;
use crate::rules::OpenMetricsRuleStatus;
use crate::rules::OpenMetricsRuleV;
use vstd::string::StringExecFns;

verus! {

/// The first index of a group with the given name in a plain group list,
/// or `-1`.
pub open spec fn groups_name_idx(groups: Seq<GroupSpecV>, name: Seq<char>) -> int
    decreases groups.len(),
{
    if groups.len() == 0 {
        -1
    } else if groups[0].name == name {
        0
    } else {
        let r = groups_name_idx(groups.drop_first(), name);
        if r < 0 {
            -1
        } else {
            r + 1
        }
    }
}


proof fn lemma_groups_name_idx_at(groups: Seq<GroupSpecV>, name: Seq<char>, i: int)
    requires
        0 <= i < groups.len(),
        groups[i].name == name,
        forall|j: int| 0 <= j < i ==> groups[j].name != name,
    ensures
        groups_name_idx(groups, name) == i,
    decreases groups.len(),
{
    if groups[0].name != name {
        assert(forall|j: int|
            0 <= j < groups.len() - 1 ==> groups.drop_first()[j] == groups[j + 1]);
        lemma_groups_name_idx_at(groups.drop_first(), name, i - 1);
    }
}

proof fn lemma_groups_name_idx_none(groups: Seq<GroupSpecV>, name: Seq<char>)
    requires
        forall|j: int| 0 <= j < groups.len() ==> groups[j].name != name,
    ensures
        groups_name_idx(groups, name) == -1,
    decreases groups.len(),
{
    if groups.len() > 0 {
        assert(forall|j: int|
            0 <= j < groups.len() - 1 ==> groups.drop_first()[j] == groups[j + 1]);
        lemma_groups_name_idx_none(groups.drop_first(), name);
    }
}

/// Finds the first group with the given name in a plain group list.
#[verifier::loop_isolation(false)]
fn find_group_in(groups: &Vec<GroupSpec>, name: &String) -> (r: Option<usize>)
    ensures
        ({
            let gv = groups@.map_values(|g: GroupSpec| g@);
            match r {
                Some(i) => i < gv.len() && groups_name_idx(gv, name@) == i as int,
                None => groups_name_idx(gv, name@) == -1,
            }
        }),
{
    let ghost gv = groups@.map_values(|g: GroupSpec| g@);
    let mut i: usize = 0;
    while i < groups.len()
        invariant
            i <= gv.len(),
            forall|j: int| 0 <= j < i ==> gv[j].name != name@,
        decreases gv.len() - i,
    {
        if groups[i].name.eq(name) {
            proof {
                assert(gv[i as int].name == name@);
                lemma_groups_name_idx_at(gv, name@, i as int);
            }
            return Some(i);
        }
        i += 1;
    }
    proof {
        lemma_groups_name_idx_none(gv, name@);
    }
    None
}

/// The first resource that owns `(tenant, group name)`: it lists the
/// tenant and holds a group of that name.  `-1` when none does.
pub open spec fn owner_idx(rules: Seq<OpenMetricsRuleV>, tenant: Seq<char>, name: Seq<char>)
    -> int
    decreases rules.len(),
{
    if rules.len() == 0 {
        -1
    } else if rules[0].spec.tenants.contains(tenant) && groups_name_idx(
        rules[0].spec.groups,
        name,
    ) >= 0 {
        0
    } else {
        let r = owner_idx(rules.drop_first(), tenant, name);
        if r < 0 {
            -1
        } else {
            r + 1
        }
    }
}


proof fn lemma_owner_idx_at(rules: Seq<OpenMetricsRuleV>, tenant: Seq<char>, name: Seq<char>, i: int)
    requires
        0 <= i < rules.len(),
        rules[i].spec.tenants.contains(tenant) && groups_name_idx(rules[i].spec.groups, name)
            >= 0,
        forall|j: int|
            0 <= j < i ==> !((#[trigger] rules[j]).spec.tenants.contains(tenant)
                && groups_name_idx(rules[j].spec.groups, name) >= 0),
    ensures
        owner_idx(rules, tenant, name) == i,
    decreases rules.len(),
{
    if !(rules[0].spec.tenants.contains(tenant) && groups_name_idx(rules[0].spec.groups, name)
        >= 0) {
        assert(forall|j: int|
            0 <= j < rules.len() - 1 ==> rules.drop_first()[j] == rules[j + 1]);
        lemma_owner_idx_at(rules.drop_first(), tenant, name, i - 1);
    }
}

proof fn lemma_owner_idx_none(rules: Seq<OpenMetricsRuleV>, tenant: Seq<char>, name: Seq<char>)
    requires
        forall|j: int|
            0 <= j < rules.len() ==> !((#[trigger] rules[j]).spec.tenants.contains(tenant)
                && groups_name_idx(rules[j].spec.groups, name) >= 0),
    ensures
        owner_idx(rules, tenant, name) == -1,
    decreases rules.len(),
{
    if rules.len() > 0 {
        assert(forall|j: int|
            0 <= j < rules.len() - 1 ==> rules.drop_first()[j] == rules[j + 1]);
        lemma_owner_idx_none(rules.drop_first(), tenant, name);
    }
}

/// A resource prepared for apply: `ruler_updated` is set and the copy
/// carries no server-managed fields.
pub open spec fn spec_resource_updated(r: OpenMetricsRuleV) -> OpenMetricsRuleV {
    OpenMetricsRuleV {
        name: r.name,
        has_managed_fields: false,
        spec: r.spec,
        status: Some(true),
    }
}

/// Renews the resource status before an apply: marks the ruler as brought
/// up to date and strips the server-managed fields from the payload.
pub fn resource_updated(mut open_metrics_rule: OpenMetricsRule) -> (r: OpenMetricsRule)
    ensures
        r@ == spec_resource_updated(open_metrics_rule@),
{
    open_metrics_rule.has_managed_fields = false;
    open_metrics_rule.status = Some(OpenMetricsRuleStatus { ruler_updated: true });
    open_metrics_rule
}

/// The description every synthesized bundle carries.
pub open spec fn sourced_description() -> Seq<char> {
    "open-metrics-multi-tenancy-kit-sourced-rule"@
}

/// The resource to apply for a new or changed group of a tenant: when a
/// listed resource already owns `(tenant, group name)`, that resource with
/// the group overwritten in place; otherwise a fresh single-group bundle
/// under the synthesized name.  Either way the result is ready for apply:
/// status set, managed fields stripped.
#[verifier::loop_isolation(false)]
pub fn plan_create_or_update(
    rule_vec: &Vec<OpenMetricsRule>,
    tenant_id: &String,
    rule_group: &GroupSpec,
) -> (r: (String, OpenMetricsRule))
    requires
        ({
            let rv = rule_vec@.map_values(|x: OpenMetricsRule| x@);
            let i = owner_idx(rv, tenant_id@, rule_group@.name);
            i >= 0 ==> rv[i].name is Some
        }),
    ensures
        ({
            let rv = rule_vec@.map_values(|x: OpenMetricsRule| x@);
            let i = owner_idx(rv, tenant_id@, rule_group@.name);
            if i >= 0 {
                let owner = rv[i];
                let gi = groups_name_idx(owner.spec.groups, rule_group@.name);
                &&& r.0@ == owner.name.unwrap()
                &&& r.1@ == spec_resource_updated(
                    OpenMetricsRuleV {
                        name: owner.name,
                        has_managed_fields: owner.has_managed_fields,
                        spec: OpenMetricsRuleSpecV {
                            tenants: owner.spec.tenants,
                            description: owner.spec.description,
                            groups: owner.spec.groups.update(gi, rule_group@),
                        },
                        status: owner.status,
                    },
                )
            } else {
                &&& r.0@ == spec_resource_name(tenant_id@, rule_group@.name)
                &&& r.1@ == OpenMetricsRuleV {
                    name: Some(r.0@),
                    has_managed_fields: false,
                    spec: OpenMetricsRuleSpecV {
                        tenants: seq![tenant_id@],
                        description: Some(sourced_description()),
                        groups: seq![rule_group@],
                    },
                    status: Some(true),
                }
            }
        }),
{
    let ghost rv = rule_vec@.map_values(|x: OpenMetricsRule| x@);
    let mut i: usize = 0;
    while i < rule_vec.len()
        invariant
            i <= rv.len(),
            forall|j: int|
                0 <= j < i ==> !((#[trigger] rv[j]).spec.tenants.contains(tenant_id@)
                    && groups_name_idx(rv[j].spec.groups, rule_group@.name) >= 0),
        decreases rv.len() - i,
    {
        let rule = &rule_vec[i];
        proof {
            assert(rv[i as int] == rule@);
        }
        if crate::strseq::contains_string(&rule.spec.tenants, tenant_id) {
            match find_group_in(&rule.spec.groups, &rule_group.name) {
                Some(gi) => {
                    proof {
                        assert(rv[i as int].spec.tenants.contains(tenant_id@));
                        lemma_owner_idx_at(rv, tenant_id@, rule_group@.name, i as int);
                    }
                    let resource_name = match &rule.name {
                        Some(n) => n.clone(),
                        None => {
                            proof {
                                assert(false);
                            }
                            String::new()
                        },
                    };
                    // Rebuild the owner with the group overwritten in place.
                    let mut groups: Vec<GroupSpec> = Vec::new();
                    let ghost old_groups = rule.spec@.groups;
                    let mut k: usize = 0;
                    while k < rule.spec.groups.len()
                        invariant
                            k <= old_groups.len(),
                            old_groups == rule.spec@.groups,
                            gi < old_groups.len(),
                            replaced_prefix(groups@, old_groups, gi as int, k as int,
                                rule_group@),
                        decreases old_groups.len() - k,
                    {
                        proof {
                            assert(old_groups[k as int] == rule.spec.groups@[k as int]@);
                        }
                        if k == gi {
                            groups.push(rule_group.duplicate());
                        } else {
                            groups.push(rule.spec.groups[k].duplicate());
                        }
                        k += 1;
                    }
                    let updated = OpenMetricsRule {
                        name: crate::rules::clone_opt_string(&rule.name),
                        has_managed_fields: rule.has_managed_fields,
                        spec: OpenMetricsRuleSpec {
                            tenants: crate::strseq::clone_strings(&rule.spec.tenants),
                            description: crate::rules::clone_opt_string(
                                &rule.spec.description,
                            ),
                            groups,
                        },
                        status: match &rule.status {
                            Some(s) => Some(
                                OpenMetricsRuleStatus { ruler_updated: s.ruler_updated },
                            ),
                            None => None,
                        },
                    };
                    let prepared = resource_updated(updated);
                    proof {
                        assert(prepared@.spec.groups =~= rv[i as int].spec.groups.update(
                            gi as int,
                            rule_group@,
                        ));
                        assert(prepared@.spec.tenants =~= rv[i as int].spec.tenants);
                    }
                    return (resource_name, prepared);
                },
                None => {
                },
            }
        }
        i += 1;
    }
    proof {
        lemma_owner_idx_none(rv, tenant_id@, rule_group@.name);
    }
    let resource_name = crate::naming::k8s_resource_name(tenant_id, &rule_group.name);
    let fresh = OpenMetricsRule {
        name: Some(resource_name.clone()),
        has_managed_fields: false,
        spec: OpenMetricsRuleSpec {
            tenants: vec![tenant_id.clone()],
            description: Some(String::from_str("open-metrics-multi-tenancy-kit-sourced-rule")),
            groups: vec![rule_group.duplicate()],
        },
        status: Some(OpenMetricsRuleStatus { ruler_updated: true }),
    };
    proof {
        assert(fresh@.spec.tenants =~= seq![tenant_id@]);
        assert(fresh@.spec.groups =~= seq![rule_group@]);
    }
    (resource_name, fresh)
}

/// What removing a group means for the cluster: delete the whole resource,
/// apply a shrunken copy, or nothing, because no resource owns the group.
#[derive(Debug, PartialEq, Eq)]
pub enum RemovalPlan {
    /// The owning resource holds only this group: delete it.
    Delete(String),
    /// The owning resource keeps other groups: apply it without this one.
    Apply(String, OpenMetricsRule),
    /// No listed resource owns `(tenant, group name)`.
    NotFound,
}

/// The plan for removing `(tenant, group name)` from the cluster: the
/// first owning resource is deleted when the group is its only one, else
/// re-applied with the group left out.
#[verifier::loop_isolation(false)]
pub fn plan_remove(
    rule_vec: &Vec<OpenMetricsRule>,
    tenant_id: &String,
    group_name: &String,
) -> (r: RemovalPlan)
    requires
        ({
            let rv = rule_vec@.map_values(|x: OpenMetricsRule| x@);
            let i = owner_idx(rv, tenant_id@, group_name@);
            i >= 0 ==> rv[i].name is Some
        }),
    ensures
        ({
            let rv = rule_vec@.map_values(|x: OpenMetricsRule| x@);
            let i = owner_idx(rv, tenant_id@, group_name@);
            if i >= 0 {
                let owner = rv[i];
                let gi = groups_name_idx(owner.spec.groups, group_name@);
                if owner.spec.groups.len() == 1 {
                    r matches RemovalPlan::Delete(n) && n@ == owner.name.unwrap()
                } else {
                    r matches RemovalPlan::Apply(n, rule) && n@ == owner.name.unwrap()
                        && rule@ == spec_resource_updated(
                        OpenMetricsRuleV {
                            name: owner.name,
                            has_managed_fields: owner.has_managed_fields,
                            spec: OpenMetricsRuleSpecV {
                                tenants: owner.spec.tenants,
                                description: owner.spec.description,
                                groups: owner.spec.groups.remove(gi),
                            },
                            status: owner.status,
                        },
                    )
                }
            } else {
                r matches RemovalPlan::NotFound
            }
        }),
{
    let ghost rv = rule_vec@.map_values(|x: OpenMetricsRule| x@);
    let mut i: usize = 0;
    while i < rule_vec.len()
        invariant
            i <= rv.len(),
            forall|j: int|
                0 <= j < i ==> !((#[trigger] rv[j]).spec.tenants.contains(tenant_id@)
                    && groups_name_idx(rv[j].spec.groups, group_name@) >= 0),
        decreases rv.len() - i,
    {
        let rule = &rule_vec[i];
        proof {
            assert(rv[i as int] == rule@);
        }
        if crate::strseq::contains_string(&rule.spec.tenants, tenant_id) {
            match find_group_in(&rule.spec.groups, group_name) {
                Some(gi) => {
                    proof {
                        assert(rv[i as int].spec.tenants.contains(tenant_id@));
                        lemma_owner_idx_at(rv, tenant_id@, group_name@, i as int);
                    }
                    let resource_name = match &rule.name {
                        Some(n) => n.clone(),
                        None => {
                            proof {
                                assert(false);
                            }
                            String::new()
                        },
                    };
                    if rule.spec.groups.len() == 1 {
                        return RemovalPlan::Delete(resource_name);
                    }
                    // Rebuild the owner without the removed group.
                    let mut groups: Vec<GroupSpec> = Vec::new();
                    let ghost old_groups = rule.spec@.groups;
                    let mut k: usize = 0;
                    while k < rule.spec.groups.len()
                        invariant
                            k <= old_groups.len(),
                            old_groups == rule.spec@.groups,
                            gi < old_groups.len(),
                            group_list_prefix(groups@, old_groups, gi as int, k as int),
                        decreases old_groups.len() - k,
                    {
                        proof {
                            assert(old_groups[k as int] == rule.spec.groups@[k as int]@);
                        }
                        if k != gi {
                            groups.push(rule.spec.groups[k].duplicate());
                        }
                        k += 1;
                    }
                    let shrunk = OpenMetricsRule {
                        name: crate::rules::clone_opt_string(&rule.name),
                        has_managed_fields: rule.has_managed_fields,
                        spec: OpenMetricsRuleSpec {
                            tenants: crate::strseq::clone_strings(&rule.spec.tenants),
                            description: crate::rules::clone_opt_string(
                                &rule.spec.description,
                            ),
                            groups,
                        },
                        status: match &rule.status {
                            Some(s) => Some(
                                OpenMetricsRuleStatus { ruler_updated: s.ruler_updated },
                            ),
                            None => None,
                        },
                    };
                    let prepared = resource_updated(shrunk);
                    proof {
                        old_groups.remove_ensures(gi as int);
                        assert(prepared@.spec.groups =~= rv[i as int].spec.groups.remove(
                            gi as int,
                        ));
                        assert(prepared@.spec.tenants =~= rv[i as int].spec.tenants);
                    }
                    return RemovalPlan::Apply(resource_name, prepared);
                },
                None => {
                },
            }
        }
        i += 1;
    }
    proof {
        lemma_owner_idx_none(rv, tenant_id@, group_name@);
    }
    RemovalPlan::NotFound
}

/// The first `k` elements of the source have been copied, with the one at
/// `gi` overwritten by `g`.
spec fn replaced_prefix(
    built: Seq<GroupSpec>,
    source: Seq<GroupSpecV>,
    gi: int,
    k: int,
    g: GroupSpecV,
) -> bool {
    &&& built.len() == k
    &&& forall|j: int|
        0 <= j < k ==> built[j]@ == (
        if j == gi {
            g
        } else {
            source[j]
        })
}

/// The first `k` elements of the source, skipping the one at `gi`, have
/// been copied.
spec fn group_list_prefix(built: Seq<GroupSpec>, source: Seq<GroupSpecV>, gi: int, k: int)
    -> bool {
    &&& built.len() == (
    if k <= gi {
        k
    } else {
        k - 1
    })
    &&& forall|j: int|
        0 <= j < built.len() ==> built[j]@ == source[
            if j < gi {
                j
            } else {
                j + 1
            }
        ]
}

} // verus!
