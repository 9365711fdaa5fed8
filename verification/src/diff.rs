//! The diff engine of the rule reconciler.
//!
//! Both rule stores are compared as maps from tenant id to a list of rule
//! groups, each group carrying the index of the resource it came from (or
//! `-1` when it came from the ruler).  The diff yields, per tenant, the
//! groups to update — present in the origin but missing or different in
//! the target — and the groups to remove — present in the target but
//! absent from the origin.

use vstd::prelude::*;

use crate::assoc::assoc_has;
use crate::assoc::assoc_idx;
use crate::assoc::assoc_wf;
use crate::assoc::lemma_assoc_idx_at;
use crate::assoc::lemma_assoc_idx_bounds;
use crate::assoc::lemma_assoc_idx_none;
use crate::rules::GroupSpec;
use crate::rules::GroupSpecV;
use crate::rules::OpenMetricsRule;
use crate::rules::OpenMetricsRuleV;
use crate::rules::are_groups_equal;
use crate::rules::find_group_named;
use crate::rules::group_eq;
use crate::rules::group_name_idx;
use crate::rules::lemma_group_name_idx_at;
use crate::rules::lemma_group_name_idx_bounds;

verus! {

/// The view of one tenant's group list.
pub type GroupListV = Seq<(GroupSpecV, i64)>;

/// The view of a tenant-to-groups map, in insertion order.
pub type TenantGroupsV = Seq<(Seq<char>, GroupListV)>;

/// The view of a group-list vector.
pub open spec fn group_list_view(v: Seq<(GroupSpec, i64)>) -> GroupListV {
    v.map_values(|e: (GroupSpec, i64)| (e.0@, e.1))
}

/// A map from tenant id to rule groups, in insertion order.
#[derive(Debug, PartialEq, Eq)]
pub struct TenantGroups {
    pub entries: Vec<(String, Vec<(GroupSpec, i64)>)>,
}

impl View for TenantGroups {
    type V = TenantGroupsV;

    open spec fn view(&self) -> TenantGroupsV {
        self.entries@.map_values(
            |e: (String, Vec<(GroupSpec, i64)>)| (e.0@, group_list_view(e.1@)),
        )
    }
}

impl TenantGroups {
    /// The empty map.
    pub fn new() -> (r: TenantGroups)
        ensures
            r@ == Seq::<(Seq<char>, GroupListV)>::empty(),
    {
        let r = TenantGroups { entries: Vec::new() };
        proof {
            assert(r@ =~= Seq::<(Seq<char>, GroupListV)>::empty());
        }
        r
    }

    /// How many tenants the map holds.
    pub fn len(&self) -> (r: usize)
        ensures
            r == self@.len(),
    {
        self.entries.len()
    }

    /// The index of the entry for `tenant_id`, or `None`.
    #[verifier::loop_isolation(false)]
    pub fn find_tenant(&self, tenant_id: &String) -> (r: Option<usize>)
        ensures
            match r {
                Some(i) => i < self@.len() && assoc_idx(self@, tenant_id@) == i as int,
                None => assoc_idx(self@, tenant_id@) == -1,
            },
    {
        let mut i: usize = 0;
        while i < self.entries.len()
            invariant
                i <= self@.len(),
                forall|j: int| 0 <= j < i ==> self@[j].0 != tenant_id@,
            decreases self@.len() - i,
        {
            if tenant_id.eq(&self.entries[i].0) {
                proof {
                    assert(self@[i as int].0 == tenant_id@);
                    lemma_assoc_idx_at(self@, tenant_id@, i as int);
                }
                return Some(i);
            }
            i += 1;
        }
        proof {
            lemma_assoc_idx_none(self@, tenant_id@);
        }
        None
    }
}

/// Whether the origin group `g` must be written to the target: the target
/// has no group of that name, or has one that differs.
pub open spec fn needs_update(g: (GroupSpecV, i64), target: GroupListV) -> bool {
    let i = group_name_idx(target, g.0.name);
    i < 0 || !group_eq(g.0, target[i].0)
}

/// The origin groups that must be written to the target, in origin order.
pub open spec fn updates_for(origin: GroupListV, target: GroupListV) -> GroupListV
    decreases origin.len(),
{
    if origin.len() == 0 {
        Seq::empty()
    } else {
        updates_for(origin.drop_last(), target) + (
        if needs_update(origin.last(), target) {
            seq![origin.last()]
        } else {
            Seq::empty()
        })
    }
}

/// The target groups whose name is absent from the origin, in target order.
pub open spec fn removals_for(target: GroupListV, origin: GroupListV) -> GroupListV
    decreases target.len(),
{
    if target.len() == 0 {
        Seq::empty()
    } else {
        removals_for(target.drop_last(), origin) + (
        if group_name_idx(origin, target.last().0.name) < 0 {
            seq![target.last()]
        } else {
            Seq::empty()
        })
    }
}

/// The update half of the diff: for every origin tenant, the groups that
/// are missing or different in the target; tenants with nothing to update
/// are omitted.
pub open spec fn spec_diff_updates(target: TenantGroupsV, origin: TenantGroupsV)
    -> TenantGroupsV
    decreases origin.len(),
{
    if origin.len() == 0 {
        Seq::empty()
    } else {
        let front = spec_diff_updates(target, origin.drop_last());
        let entry = origin.last();
        let ti = assoc_idx(target, entry.0);
        let ups = if ti >= 0 {
            updates_for(entry.1, target[ti].1)
        } else {
            entry.1
        };
        if ups.len() > 0 {
            front.push((entry.0, ups))
        } else {
            front
        }
    }
}

/// The removal half of the diff: for every target tenant, the groups whose
/// name the origin no longer has; tenants with nothing to remove are
/// omitted.
pub open spec fn spec_diff_removals(target: TenantGroupsV, origin: TenantGroupsV)
    -> TenantGroupsV
    decreases target.len(),
{
    if target.len() == 0 {
        Seq::empty()
    } else {
        let front = spec_diff_removals(target.drop_last(), origin);
        let entry = target.last();
        let oi = assoc_idx(origin, entry.0);
        let rems = if oi >= 0 {
            removals_for(entry.1, origin[oi].1)
        } else {
            entry.1
        };
        if rems.len() > 0 {
            front.push((entry.0, rems))
        } else {
            front
        }
    }
}

/// Copies a group list.
#[verifier::loop_isolation(false)]
fn clone_group_list(v: &Vec<(GroupSpec, i64)>) -> (r: Vec<(GroupSpec, i64)>)
    ensures
        group_list_view(r@) == group_list_view(v@),
{
    let mut r: Vec<(GroupSpec, i64)> = Vec::new();
    let mut i: usize = 0;
    while i < v.len()
        invariant
            i <= v.len(),
            r@.len() == i,
            forall|j: int|
                0 <= j < i ==> group_list_view(r@)[j] == group_list_view(v@)[j],
        decreases v.len() - i,
    {
        let g = &v[i];
        r.push((g.0.duplicate(), g.1));
        i += 1;
    }
    proof {
        assert(group_list_view(r@) =~= group_list_view(v@));
    }
    r
}

/// Calculates, tenant by tenant, the rule updates (groups of the origin
/// that are missing or different in the target) and the rule removals
/// (groups of the target whose name the origin no longer has).
#[verifier::loop_isolation(false)]
pub fn diff_rule_groups(target_rules: &TenantGroups, origin_rules: &TenantGroups) -> (r: (
    TenantGroups,
    TenantGroups,
))
    ensures
        r.0@ == spec_diff_updates(target_rules@, origin_rules@),
        r.1@ == spec_diff_removals(target_rules@, origin_rules@),
{
    let ghost tv = target_rules@;
    let ghost ov = origin_rules@;

    let mut updates = TenantGroups::new();
    let mut oi: usize = 0;
    while oi < origin_rules.entries.len()
        invariant
            oi <= ov.len(),
            updates@ == spec_diff_updates(tv, ov.take(oi as int)),
        decreases ov.len() - oi,
    {
        let entry = &origin_rules.entries[oi];
        let tenant_id = &entry.0;
        let glist = &entry.1;
        let ghost glv = group_list_view(glist@);
        proof {
            assert(ov.take(oi + 1).drop_last() =~= ov.take(oi as int));
            assert(ov.take(oi + 1).last() == (tenant_id@, glv));
        }
        let mut ups: Vec<(GroupSpec, i64)> = Vec::new();
        match target_rules.find_tenant(tenant_id) {
            Some(tj) => {
                let tlist = &target_rules.entries[tj].1;
                let ghost tlv = group_list_view(tlist@);
                proof {
                    assert(tv[tj as int].1 == tlv);
                    assert(group_list_view(ups@) =~= updates_for(glv.take(0), tlv));
                }
                let mut gi: usize = 0;
                while gi < glist.len()
                    invariant
                        gi <= glv.len(),
                        glv == group_list_view(glist@),
                        tlv == group_list_view(tlist@),
                        group_list_view(ups@) == updates_for(glv.take(gi as int), tlv),
                    decreases glv.len() - gi,
                {
                    let g = &glist[gi];
                    proof {
                        assert(glv.take(gi + 1).drop_last() =~= glv.take(gi as int));
                        assert(glv.take(gi + 1).last() == (g.0@, g.1));
                    }
                    let needed = match find_group_named(tlist, &g.0.name) {
                        Some(k) => !are_groups_equal(&g.0, &tlist[k].0),
                        None => true,
                    };
                    if needed {
                        let ghost before = ups@;
                        ups.push((g.0.duplicate(), g.1));
                        proof {
                            assert(group_list_view(ups@) =~= group_list_view(before).push(
                                (g.0@, g.1)));
                            assert(updates_for(glv.take(gi + 1), tlv) =~= updates_for(
                                glv.take(gi as int),
                                tlv,
                            ).push((g.0@, g.1)));
                        }
                    } else {
                        proof {
                            assert(updates_for(glv.take(gi + 1), tlv) =~= updates_for(
                                glv.take(gi as int),
                                tlv,
                            ));
                        }
                    }
                    gi += 1;
                }
                proof {
                    assert(glv.take(glv.len() as int) =~= glv);
                }
            },
            None => {
                ups = clone_group_list(glist);
            },
        }
        if ups.len() > 0 {
            let ghost before = updates@;
            updates.entries.push((tenant_id.clone(), ups));
            proof {
                assert(updates@ =~= before.push((tenant_id@, group_list_view(ups@))));
            }
        }
        oi += 1;
    }
    proof {
        assert(ov.take(ov.len() as int) =~= ov);
    }

    let mut removals = TenantGroups::new();
    let mut ti: usize = 0;
    while ti < target_rules.entries.len()
        invariant
            ti <= tv.len(),
            removals@ == spec_diff_removals(tv.take(ti as int), ov),
        decreases tv.len() - ti,
    {
        let entry = &target_rules.entries[ti];
        let tenant_id = &entry.0;
        let tlist = &entry.1;
        let ghost tlv = group_list_view(tlist@);
        proof {
            assert(tv.take(ti + 1).drop_last() =~= tv.take(ti as int));
            assert(tv.take(ti + 1).last() == (tenant_id@, tlv));
        }
        let mut rems: Vec<(GroupSpec, i64)> = Vec::new();
        match origin_rules.find_tenant(tenant_id) {
            Some(oj) => {
                let olist = &origin_rules.entries[oj].1;
                let ghost olv = group_list_view(olist@);
                proof {
                    assert(ov[oj as int].1 == olv);
                    assert(group_list_view(rems@) =~= removals_for(tlv.take(0), olv));
                }
                let mut gi: usize = 0;
                while gi < tlist.len()
                    invariant
                        gi <= tlv.len(),
                        tlv == group_list_view(tlist@),
                        olv == group_list_view(olist@),
                        group_list_view(rems@) == removals_for(tlv.take(gi as int), olv),
                    decreases tlv.len() - gi,
                {
                    let g = &tlist[gi];
                    proof {
                        assert(tlv.take(gi + 1).drop_last() =~= tlv.take(gi as int));
                        assert(tlv.take(gi + 1).last() == (g.0@, g.1));
                    }
                    match find_group_named(olist, &g.0.name) {
                        Some(_k) => {
                            proof {
                                assert(removals_for(tlv.take(gi + 1), olv) =~= removals_for(
                                    tlv.take(gi as int),
                                    olv,
                                ));
                            }
                        },
                        None => {
                            let ghost before = rems@;
                            rems.push((g.0.duplicate(), g.1));
                            proof {
                                assert(group_list_view(rems@) =~= group_list_view(
                                    before).push((g.0@, g.1)));
                                assert(removals_for(tlv.take(gi + 1), olv) =~= removals_for(
                                    tlv.take(gi as int),
                                    olv,
                                ).push((g.0@, g.1)));
                            }
                        },
                    }
                    gi += 1;
                }
                proof {
                    assert(tlv.take(tlv.len() as int) =~= tlv);
                }
            },
            None => {
                rems = clone_group_list(tlist);
            },
        }
        if rems.len() > 0 {
            let ghost before = removals@;
            removals.entries.push((tenant_id.clone(), rems));
            proof {
                assert(removals@ =~= before.push((tenant_id@, group_list_view(rems@))));
            }
        }
        ti += 1;
    }
    proof {
        assert(tv.take(tv.len() as int) =~= tv);
    }
    (updates, removals)
}

/// Groups with the resource index they came from.
pub open spec fn with_index(groups: Seq<GroupSpecV>, idx: i64) -> GroupListV {
    groups.map_values(|g: GroupSpecV| (g, idx))
}

/// One tenant of one resource folded into the map: its groups, tagged with
/// the resource index, are appended to the tenant's list, which is created
/// first when absent.
pub open spec fn add_tenant_groups(
    m: TenantGroupsV,
    t: Seq<char>,
    groups: Seq<GroupSpecV>,
    idx: i64,
) -> TenantGroupsV {
    let i = assoc_idx(m, t);
    if i >= 0 {
        m.update(i, (t, m[i].1 + with_index(groups, idx)))
    } else {
        m.push((t, with_index(groups, idx)))
    }
}

/// One resource folded into the map, tenant by tenant.
pub open spec fn add_rule_tenants(
    m: TenantGroupsV,
    tenants: Seq<Seq<char>>,
    groups: Seq<GroupSpecV>,
    idx: i64,
) -> TenantGroupsV
    decreases tenants.len(),
{
    if tenants.len() == 0 {
        m
    } else {
        add_tenant_groups(
            add_rule_tenants(m, tenants.drop_last(), groups, idx),
            tenants.last(),
            groups,
            idx,
        )
    }
}

/// The tenant map of a resource list: resources folded in order, each
/// tagged with its position.
pub open spec fn spec_tenant_map(rules: Seq<OpenMetricsRuleV>) -> TenantGroupsV
    decreases rules.len(),
{
    if rules.len() == 0 {
        Seq::empty()
    } else {
        add_rule_tenants(
            spec_tenant_map(rules.drop_last()),
            rules.last().spec.tenants,
            rules.last().spec.groups,
            (rules.len() - 1) as i64,
        )
    }
}

/// Builds the tenant-to-groups map of a resource list; every group is
/// tagged with the index of the resource it came from.
#[verifier::loop_isolation(false)]
pub fn get_tenant_map_from_rules_list(open_metrics_rules: &Vec<OpenMetricsRule>) -> (r:
    TenantGroups)
    requires
        open_metrics_rules@.len() <= i64::MAX,
    ensures
        r@ == spec_tenant_map(open_metrics_rules@.map_values(|x: OpenMetricsRule| x@)),
{
    let ghost rv = open_metrics_rules@.map_values(|x: OpenMetricsRule| x@);
    let mut tenant_specs = TenantGroups::new();
    proof {
        assert(tenant_specs@ =~= spec_tenant_map(rv.take(0)));
    }
    let mut ri: usize = 0;
    while ri < open_metrics_rules.len()
        invariant
            ri <= rv.len(),
            tenant_specs@ == spec_tenant_map(rv.take(ri as int)),
        decreases rv.len() - ri,
    {
        let rule = &open_metrics_rules[ri];
        let ctr = ri as i64;
        let ghost tenants_v = rule.spec@.tenants;
        let ghost groups_v = rule.spec@.groups;
        proof {
            assert(rv.take(ri + 1).drop_last() =~= rv.take(ri as int));
            assert(rv.take(ri + 1).last() == rule@);
        }
        let ghost base = tenant_specs@;
        let mut ti: usize = 0;
        while ti < rule.spec.tenants.len()
            invariant
                ti <= tenants_v.len(),
                tenants_v == rule.spec@.tenants,
                groups_v == rule.spec@.groups,
                tenant_specs@ == add_rule_tenants(base, tenants_v.take(ti as int), groups_v,
                    ctr),
            decreases tenants_v.len() - ti,
        {
            let tenant_id = &rule.spec.tenants[ti];
            proof {
                assert(tenants_v.take(ti + 1).drop_last() =~= tenants_v.take(ti as int));
                assert(tenants_v.take(ti + 1).last() == tenant_id@);
            }
            let ghost mid = tenant_specs@;
            match tenant_specs.find_tenant(tenant_id) {
                Some(i) => {
                    proof {
                        lemma_assoc_idx_bounds(tenant_specs@, tenant_id@);
                    }
                    let ghost before_entries = tenant_specs.entries@;
                    let mut entry = tenant_specs.entries.remove(i);
                    proof {
                        before_entries.remove_ensures(i as int);
                    }
                    let ghost list0 = group_list_view(entry.1@);
                    let mut gi: usize = 0;
                    while gi < rule.spec.groups.len()
                        invariant
                            gi <= groups_v.len(),
                            groups_v == rule.spec@.groups,
                            entry.0@ == mid[i as int].0,
                            group_list_view(entry.1@) == list0 + with_index(
                                groups_v.take(gi as int),
                                ctr,
                            ),
                        decreases groups_v.len() - gi,
                    {
                        let ghost before_list = entry.1@;
                        entry.1.push((rule.spec.groups[gi].duplicate(), ctr));
                        proof {
                            assert(group_list_view(entry.1@) =~= group_list_view(
                                before_list).push((groups_v[gi as int], ctr)));
                            assert(list0 + with_index(groups_v.take(gi + 1), ctr) =~= (list0
                                + with_index(groups_v.take(gi as int), ctr)).push(
                                (groups_v[gi as int], ctr)));
                        }
                        gi += 1;
                    }
                    proof {
                        assert(groups_v.take(groups_v.len() as int) =~= groups_v);
                    }
                    let ghost new_entry = entry;
                    tenant_specs.entries.insert(i, entry);
                    proof {
                        before_entries.remove(i as int).insert_ensures(i as int, new_entry);
                        assert(tenant_specs.entries@ =~= before_entries.update(
                            i as int,
                            new_entry,
                        ));
                        assert(tenant_specs@ =~= add_tenant_groups(mid, tenant_id@, groups_v,
                            ctr));
                    }
                },
                None => {
                    let mut list: Vec<(GroupSpec, i64)> = Vec::new();
                    proof {
                        assert(group_list_view(list@) =~= with_index(groups_v.take(0), ctr));
                    }
                    let mut gi: usize = 0;
                    while gi < rule.spec.groups.len()
                        invariant
                            gi <= groups_v.len(),
                            groups_v == rule.spec@.groups,
                            group_list_view(list@) == with_index(groups_v.take(gi as int),
                                ctr),
                        decreases groups_v.len() - gi,
                    {
                        let ghost before_list = list@;
                        list.push((rule.spec.groups[gi].duplicate(), ctr));
                        proof {
                            assert(group_list_view(list@) =~= group_list_view(
                                before_list).push((groups_v[gi as int], ctr)));
                            assert(with_index(groups_v.take(gi + 1), ctr) =~= with_index(
                                groups_v.take(gi as int),
                                ctr,
                            ).push((groups_v[gi as int], ctr)));
                        }
                        gi += 1;
                    }
                    proof {
                        assert(groups_v.take(groups_v.len() as int) =~= groups_v);
                    }
                    let ghost new_list = list;
                    tenant_specs.entries.push((tenant_id.clone(), list));
                    proof {
                        assert(tenant_specs@ =~= mid.push(
                            (tenant_id@, group_list_view(new_list@))));
                        assert(tenant_specs@ =~= add_tenant_groups(mid, tenant_id@, groups_v,
                            ctr));
                    }
                },
            }
            ti += 1;
        }
        proof {
            assert(tenants_v.take(tenants_v.len() as int) =~= tenants_v);
        }
        ri += 1;
    }
    proof {
        assert(rv.take(rv.len() as int) =~= rv);
    }
    tenant_specs
}

/// Group names are unique within one tenant's list.
pub open spec fn group_names_unique(gl: GroupListV) -> bool {
    forall|i: int, j: int| 0 <= i < j < gl.len() ==> gl[i].0.name != gl[j].0.name
}

proof fn lemma_updates_for_none(origin: GroupListV, target: GroupListV)
    requires
        forall|j: int| 0 <= j < origin.len() ==> !needs_update(#[trigger] origin[j], target),
    ensures
        updates_for(origin, target) == Seq::<(GroupSpecV, i64)>::empty(),
    decreases origin.len(),
{
    if origin.len() > 0 {
        assert forall|j: int|
            0 <= j < origin.len() - 1 implies !needs_update(
            #[trigger] origin.drop_last()[j],
            target,
        ) by {
            assert(origin.drop_last()[j] == origin[j]);
        }
        lemma_updates_for_none(origin.drop_last(), target);
        assert(origin[origin.len() - 1] == origin.last());
        assert(updates_for(origin, target) =~= Seq::<(GroupSpecV, i64)>::empty());
    }
}

proof fn lemma_removals_for_none(target: GroupListV, origin: GroupListV)
    requires
        forall|j: int|
            0 <= j < target.len() ==> group_name_idx(origin, (#[trigger] target[j]).0.name)
                >= 0,
    ensures
        removals_for(target, origin) == Seq::<(GroupSpecV, i64)>::empty(),
    decreases target.len(),
{
    if target.len() > 0 {
        assert forall|j: int|
            0 <= j < target.len() - 1 implies group_name_idx(
            origin,
            (#[trigger] target.drop_last()[j]).0.name,
        ) >= 0 by {
            assert(target.drop_last()[j] == target[j]);
        }
        lemma_removals_for_none(target.drop_last(), origin);
        assert(target[target.len() - 1] == target.last());
        assert(removals_for(target, origin) =~= Seq::<(GroupSpecV, i64)>::empty());
    }
}

/// Diffing a store against itself yields nothing: no updates and no
/// removals, for any map with distinct tenants and, per tenant, distinct
/// group names.
pub proof fn lemma_diff_self(m: TenantGroupsV)
    requires
        assoc_wf(m),
        forall|j: int| 0 <= j < m.len() ==> group_names_unique((#[trigger] m[j]).1),
    ensures
        spec_diff_updates(m, m) == Seq::<(Seq<char>, GroupListV)>::empty(),
        spec_diff_removals(m, m) == Seq::<(Seq<char>, GroupListV)>::empty(),
{
    lemma_diff_self_updates(m, m.len() as int);
    lemma_diff_self_removals(m, m.len() as int);
    assert(m.take(m.len() as int) =~= m);
}

proof fn lemma_self_list_clean(gl: GroupListV)
    requires
        group_names_unique(gl),
    ensures
        updates_for(gl, gl) == Seq::<(GroupSpecV, i64)>::empty(),
        removals_for(gl, gl) == Seq::<(GroupSpecV, i64)>::empty(),
{
    assert forall|j: int| 0 <= j < gl.len() implies !needs_update(#[trigger] gl[j], gl) by {
        lemma_group_name_idx_at(gl, gl[j].0.name, j);
        assert(gl[j].0.rules.to_multiset() =~= gl[j].0.rules.to_multiset());
    }
    assert forall|j: int|
        0 <= j < gl.len() implies group_name_idx(gl, (#[trigger] gl[j]).0.name) >= 0 by {
        lemma_group_name_idx_at(gl, gl[j].0.name, j);
    }
    lemma_updates_for_none(gl, gl);
    lemma_removals_for_none(gl, gl);
}

proof fn lemma_diff_self_updates(m: TenantGroupsV, k: int)
    requires
        assoc_wf(m),
        forall|j: int| 0 <= j < m.len() ==> group_names_unique((#[trigger] m[j]).1),
        0 <= k <= m.len(),
    ensures
        spec_diff_updates(m, m.take(k)) == Seq::<(Seq<char>, GroupListV)>::empty(),
    decreases k,
{
    if k > 0 {
        lemma_diff_self_updates(m, k - 1);
        assert(m.take(k).drop_last() =~= m.take(k - 1));
        assert(m.take(k).last() == m[k - 1]);
        lemma_assoc_idx_at(m, m[k - 1].0, k - 1);
        lemma_self_list_clean(m[k - 1].1);
    }
}

proof fn lemma_diff_self_removals(m: TenantGroupsV, k: int)
    requires
        assoc_wf(m),
        forall|j: int| 0 <= j < m.len() ==> group_names_unique((#[trigger] m[j]).1),
        0 <= k <= m.len(),
    ensures
        spec_diff_removals(m.take(k), m) == Seq::<(Seq<char>, GroupListV)>::empty(),
    decreases k,
{
    if k > 0 {
        lemma_diff_self_removals(m, k - 1);
        assert(m.take(k).drop_last() =~= m.take(k - 1));
        assert(m.take(k).last() == m[k - 1]);
        lemma_assoc_idx_at(m, m[k - 1].0, k - 1);
        lemma_self_list_clean(m[k - 1].1);
    }
}

/// Diffing two stores with disjoint tenant sets moves everything: every
/// origin group is an update and every target group is a removal, as long
/// as no tenant holds an empty group list.
pub proof fn lemma_diff_disjoint(target: TenantGroupsV, origin: TenantGroupsV)
    requires
        forall|j: int|
            0 <= j < origin.len() ==> !assoc_has(target, (#[trigger] origin[j]).0),
        forall|j: int|
            0 <= j < target.len() ==> !assoc_has(origin, (#[trigger] target[j]).0),
        forall|j: int| 0 <= j < origin.len() ==> (#[trigger] origin[j]).1.len() > 0,
        forall|j: int| 0 <= j < target.len() ==> (#[trigger] target[j]).1.len() > 0,
    ensures
        spec_diff_updates(target, origin) == origin,
        spec_diff_removals(target, origin) == target,
{
    lemma_diff_disjoint_updates(target, origin, origin.len() as int);
    lemma_diff_disjoint_removals(target, origin, target.len() as int);
    assert(origin.take(origin.len() as int) =~= origin);
    assert(target.take(target.len() as int) =~= target);
}

proof fn lemma_diff_disjoint_updates(target: TenantGroupsV, origin: TenantGroupsV, k: int)
    requires
        forall|j: int|
            0 <= j < origin.len() ==> !assoc_has(target, (#[trigger] origin[j]).0),
        forall|j: int| 0 <= j < origin.len() ==> (#[trigger] origin[j]).1.len() > 0,
        0 <= k <= origin.len(),
    ensures
        spec_diff_updates(target, origin.take(k)) == origin.take(k),
    decreases k,
{
    if k == 0 {
        assert(spec_diff_updates(target, origin.take(0)) =~= origin.take(0));
    } else {
        lemma_diff_disjoint_updates(target, origin, k - 1);
        assert(origin.take(k).drop_last() =~= origin.take(k - 1));
        assert(origin.take(k).last() == origin[k - 1]);
        lemma_assoc_idx_bounds(target, origin[k - 1].0);
        assert(origin.take(k - 1).push(origin[k - 1]) =~= origin.take(k));
    }
}

proof fn lemma_diff_disjoint_removals(target: TenantGroupsV, origin: TenantGroupsV, k: int)
    requires
        forall|j: int|
            0 <= j < target.len() ==> !assoc_has(origin, (#[trigger] target[j]).0),
        forall|j: int| 0 <= j < target.len() ==> (#[trigger] target[j]).1.len() > 0,
        0 <= k <= target.len(),
    ensures
        spec_diff_removals(target.take(k), origin) == target.take(k),
    decreases k,
{
    if k == 0 {
        assert(spec_diff_removals(target.take(0), origin) =~= target.take(0));
    } else {
        lemma_diff_disjoint_removals(target, origin, k - 1);
        assert(target.take(k).drop_last() =~= target.take(k - 1));
        assert(target.take(k).last() == target[k - 1]);
        lemma_assoc_idx_bounds(origin, target[k - 1].0);
        assert(target.take(k - 1).push(target[k - 1]) =~= target.take(k));
    }
}

} // verus!
