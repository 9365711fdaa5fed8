//! The reconciler's tick drivers, as decisions on observed state.
//!
//! The tracker synchronizes ruler → cluster: the cluster map is the
//! target, the ruler map the origin; updates become cluster applies, while
//! removals are only noted — the ruler is authoritative.  The updater
//! synchronizes cluster → ruler: the ruler map is the target, the cluster
//! map the origin; updates become ruler upserts, removals become ruler
//! deletes when removal is enabled.  Polling, HTTP and the cluster API
//! stay outside; each tick's decision is computed and verified here.

use vstd::prelude::*;

use crate::assoc::assoc_has;
use crate::assoc::assoc_idx;
use crate::assoc::assoc_wf;
use crate::assoc::lemma_assoc_idx_at;
use crate::assoc::lemma_assoc_idx_bounds;
use crate::assoc::lemma_assoc_idx_push;
use crate::diff::GroupListV;
use crate::diff::TenantGroupsV;
use crate::diff::TenantGroups;
use crate::diff::diff_rule_groups;
use crate::diff::get_tenant_map_from_rules_list;
use crate::diff::group_names_unique;
use crate::diff::needs_update;
use crate::diff::removals_for;
use crate::diff::spec_diff_removals;
use crate::diff::spec_diff_updates;
use crate::diff::spec_tenant_map;
use crate::diff::updates_for;
use crate::rules::GroupSpecV;
use crate::rules::OpenMetricsRule;
use crate::rules::group_eq;
use crate::rules::group_name_idx;
use crate::rules::lemma_group_name_idx_at;
use crate::rules::lemma_group_name_idx_bounds;

verus! {

/// One tracker tick, once tenants and both stores are observed: the
/// cluster map is the target, the ruler map the origin.  The first half
/// holds the groups to apply to the cluster; the second the groups that
/// exist only in the cluster, which the tracker notes and leaves alone.
pub fn plan_tracker_tick(k8s_rules: &Vec<OpenMetricsRule>, ruler_map: &TenantGroups) -> (r: (
    TenantGroups,
    TenantGroups,
))
    requires
        k8s_rules@.len() <= i64::MAX,
    ensures
        ({
            let target = spec_tenant_map(k8s_rules@.map_values(|x: OpenMetricsRule| x@));
            &&& r.0@ == spec_diff_updates(target, ruler_map@)
            &&& r.1@ == spec_diff_removals(target, ruler_map@)
        }),
{
    let tenant_k8s_specs = get_tenant_map_from_rules_list(k8s_rules);
    diff_rule_groups(&tenant_k8s_specs, ruler_map)
}

/// One updater tick, once both stores are observed: the ruler map is the
/// target, the cluster map the origin.  The first half holds the groups to
/// upsert into the ruler; the second the groups to delete from the ruler,
/// empty when removal is disabled.
pub fn plan_updater_tick(
    k8s_rules: &Vec<OpenMetricsRule>,
    ruler_map: &TenantGroups,
    skip_ruler_group_removal: bool,
) -> (r: (TenantGroups, TenantGroups))
    requires
        k8s_rules@.len() <= i64::MAX,
    ensures
        ({
            let origin = spec_tenant_map(k8s_rules@.map_values(|x: OpenMetricsRule| x@));
            &&& r.0@ == spec_diff_updates(ruler_map@, origin)
            &&& r.1@ == (
            if skip_ruler_group_removal {
                Seq::<(Seq<char>, GroupListV)>::empty()
            } else {
                spec_diff_removals(ruler_map@, origin)
            })
        }),
{
    let tenant_k8s_specs = get_tenant_map_from_rules_list(k8s_rules);
    let r = diff_rule_groups(ruler_map, &tenant_k8s_specs);
    if skip_ruler_group_removal {
        (r.0, TenantGroups::new())
    } else {
        r
    }
}

/// What a ruler upsert does to one tenant's store: a group of the same
/// name is overwritten in place, a new name is appended.
pub open spec fn rs_upsert(store: GroupListV, g: (GroupSpecV, i64)) -> GroupListV {
    let i = group_name_idx(store, g.0.name);
    if i >= 0 {
        store.update(i, g)
    } else {
        store.push(g)
    }
}

/// A list of upserts applied in order.
pub open spec fn rs_upsert_all(store: GroupListV, ups: GroupListV) -> GroupListV
    decreases ups.len(),
{
    if ups.len() == 0 {
        store
    } else {
        rs_upsert(rs_upsert_all(store, ups.drop_last()), ups.last())
    }
}

/// What a ruler delete does to one tenant's store: every group of that
/// name is dropped.
pub open spec fn rs_remove_name(store: GroupListV, name: Seq<char>) -> GroupListV
    decreases store.len(),
{
    if store.len() == 0 {
        Seq::empty()
    } else {
        let front = rs_remove_name(store.drop_last(), name);
        if store.last().0.name == name {
            front
        } else {
            front.push(store.last())
        }
    }
}

/// A list of removals applied in order, each by its group name.
pub open spec fn rs_remove_all(store: GroupListV, rems: GroupListV) -> GroupListV
    decreases rems.len(),
{
    if rems.len() == 0 {
        store
    } else {
        rs_remove_name(rs_remove_all(store, rems.drop_last()), rems.last().0.name)
    }
}

/// The entry a store holds under a group name, if any.
pub open spec fn rs_entry(store: GroupListV, name: Seq<char>) -> Option<(GroupSpecV, i64)> {
    let i = group_name_idx(store, name);
    if i >= 0 {
        Some(store[i])
    } else {
        None
    }
}


proof fn lemma_prefix_contains_g<T>(s: Seq<T>, x: T)
    requires
        s.len() > 0,
    ensures
        s.contains(x) == (s.drop_last().contains(x) || s.last() == x),
{
    if s.drop_last().contains(x) {
        let i = choose|i: int| 0 <= i < s.len() - 1 && s.drop_last()[i] == x;
        assert(s[i] == x);
    }
    if s.last() == x {
        assert(s[s.len() - 1] == x);
    }
    if s.contains(x) {
        let i = choose|i: int| 0 <= i < s.len() && s[i] == x;
        if i < s.len() - 1 {
            assert(s.drop_last()[i] == x);
        }
    }
}

proof fn lemma_gnidx_same_names(s1: GroupListV, s2: GroupListV, n: Seq<char>)
    requires
        s1.len() == s2.len(),
        forall|j: int| 0 <= j < s1.len() ==> (#[trigger] s1[j]).0.name == s2[j].0.name,
    ensures
        group_name_idx(s1, n) == group_name_idx(s2, n),
    decreases s1.len(),
{
    if s1.len() > 0 {
        assert(s1[0].0.name == s2[0].0.name);
        if s1[0].0.name != n {
            assert forall|j: int|
                0 <= j < s1.drop_first().len() implies (#[trigger] s1.drop_first()[j]).0.name
                == s2.drop_first()[j].0.name by {
                assert(s1.drop_first()[j] == s1[j + 1]);
                assert(s2.drop_first()[j] == s2[j + 1]);
            }
            lemma_gnidx_same_names(s1.drop_first(), s2.drop_first(), n);
        }
    }
}

proof fn lemma_gnidx_push(s: GroupListV, e: (GroupSpecV, i64), n: Seq<char>)
    ensures
        group_name_idx(s.push(e), n) == (
        if group_name_idx(s, n) >= 0 {
            group_name_idx(s, n)
        } else if e.0.name == n {
            s.len() as int
        } else {
            -1
        }),
    decreases s.len(),
{
    lemma_group_name_idx_bounds(s, n);
    if s.len() == 0 {
        assert(s.push(e)[0] == e);
        assert(group_name_idx(s, n) == -1);
        if e.0.name == n {
            assert(group_name_idx(s.push(e), n) == 0);
        } else {
            assert(s.push(e).drop_first() =~= Seq::<(GroupSpecV, i64)>::empty());
            assert(group_name_idx(s.push(e).drop_first(), n) == -1);
            assert(group_name_idx(s.push(e), n) == -1);
        }
    } else {
        assert(s.push(e)[0] == s[0]);
        if s[0].0.name == n {
            assert(group_name_idx(s, n) == 0);
            assert(group_name_idx(s.push(e), n) == 0);
        } else {
            assert(s.push(e).drop_first() =~= s.drop_first().push(e));
            lemma_gnidx_push(s.drop_first(), e, n);
            lemma_group_name_idx_bounds(s.drop_first(), n);
            assert(group_name_idx(s.push(e).drop_first(), n) == group_name_idx(
                s.drop_first().push(e),
                n,
            ));
            if group_name_idx(s.drop_first(), n) >= 0 {
                assert(group_name_idx(s.push(e), n) == group_name_idx(s.drop_first(), n) + 1);
                assert(group_name_idx(s, n) == group_name_idx(s.drop_first(), n) + 1);
            } else if e.0.name == n {
                assert(group_name_idx(s.push(e).drop_first(), n) == s.drop_first().len()
                    as int);
                assert(group_name_idx(s.push(e), n) == s.len() as int);
                assert(group_name_idx(s, n) == -1);
            } else {
                assert(group_name_idx(s.push(e), n) == -1);
                assert(group_name_idx(s, n) == -1);
            }
        }
    }
}

/// The effect of one upsert on the entry under any name.
proof fn lemma_upsert_entry(s: GroupListV, g: (GroupSpecV, i64), n: Seq<char>)
    requires
        group_names_unique(s),
    ensures
        group_names_unique(rs_upsert(s, g)),
        rs_entry(rs_upsert(s, g), n) == (
        if n == g.0.name {
            Some(g)
        } else {
            rs_entry(s, n)
        }),
{
    lemma_group_name_idx_bounds(s, g.0.name);
    lemma_group_name_idx_bounds(s, n);
    let i = group_name_idx(s, g.0.name);
    let res = rs_upsert(s, g);
    if i >= 0 {
        assert forall|j: int| 0 <= j < s.len() implies (#[trigger] s[j]).0.name == res[j].0.name
            by {}
        lemma_gnidx_same_names(s, res, n);
        lemma_group_name_idx_bounds(res, n);
        if n == g.0.name {
            lemma_gnidx_same_names(s, res, g.0.name);
        }
    } else {
        lemma_gnidx_push(s, g, n);
        if n == g.0.name {
            assert(res[s.len() as int] == g);
        }
        assert(group_names_unique(res)) by {
            assert forall|a: int, b: int|
                #![trigger res[a], res[b]]
                0 <= a < b < res.len() implies res[a].0.name != res[b].0.name by {
                if b == s.len() {
                    if res[a].0.name == g.0.name {
                        lemma_group_name_idx_bounds(s, g.0.name);
                        assert(s[a].0.name == g.0.name);
                    }
                } else {
                    assert(res[a] == s[a]);
                    assert(res[b] == s[b]);
                }
            }
        }
    }
}

/// The rightmost index of a group with the given name, or `-1`.
spec fn last_name_idx(ups: GroupListV, n: Seq<char>) -> int
    decreases ups.len(),
{
    if ups.len() == 0 {
        -1
    } else if ups.last().0.name == n {
        ups.len() - 1
    } else {
        last_name_idx(ups.drop_last(), n)
    }
}

proof fn lemma_last_name_idx_bounds(ups: GroupListV, n: Seq<char>)
    ensures
        -1 <= last_name_idx(ups, n) < ups.len(),
        last_name_idx(ups, n) >= 0 ==> ups[last_name_idx(ups, n)].0.name == n,
    decreases ups.len(),
{
    if ups.len() > 0 && ups.last().0.name != n {
        lemma_last_name_idx_bounds(ups.drop_last(), n);
        if last_name_idx(ups.drop_last(), n) >= 0 {
            assert(ups.drop_last()[last_name_idx(ups.drop_last(), n)] == ups[last_name_idx(
                ups,
                n,
            )]);
        }
    }
}

/// The effect of a list of upserts on the entry under any name: the last
/// upsert of that name wins; a name never upserted keeps its old entry.
proof fn lemma_upsert_all_entry(s: GroupListV, ups: GroupListV, n: Seq<char>)
    requires
        group_names_unique(s),
    ensures
        group_names_unique(rs_upsert_all(s, ups)),
        rs_entry(rs_upsert_all(s, ups), n) == (
        if last_name_idx(ups, n) >= 0 {
            Some(ups[last_name_idx(ups, n)])
        } else {
            rs_entry(s, n)
        }),
    decreases ups.len(),
{
    if ups.len() > 0 {
        lemma_upsert_all_entry(s, ups.drop_last(), n);
        let mid = rs_upsert_all(s, ups.drop_last());
        lemma_upsert_entry(mid, ups.last(), n);
        lemma_last_name_idx_bounds(ups.drop_last(), n);
        if ups.last().0.name != n && last_name_idx(ups.drop_last(), n) >= 0 {
            assert(ups.drop_last()[last_name_idx(ups.drop_last(), n)] == ups[last_name_idx(
                ups,
                n,
            )]);
        }
    }
}

/// The effect of one delete-by-name on the entry under any name.
proof fn lemma_remove_name_entry(s: GroupListV, name: Seq<char>, n: Seq<char>)
    requires
        group_names_unique(s),
    ensures
        group_names_unique(rs_remove_name(s, name)),
        rs_entry(rs_remove_name(s, name), n) == (
        if n == name {
            None::<(GroupSpecV, i64)>
        } else {
            rs_entry(s, n)
        }),
    decreases s.len(),
{
    lemma_group_name_idx_bounds(s, n);
    if s.len() == 0 {
    } else {
        assert(group_names_unique(s.drop_last())) by {
            assert forall|a: int, b: int|
                #![trigger s.drop_last()[a], s.drop_last()[b]]
                0 <= a < b < s.drop_last().len() implies s.drop_last()[a].0.name
                != s.drop_last()[b].0.name by {
                assert(s.drop_last()[a] == s[a]);
                assert(s.drop_last()[b] == s[b]);
            }
        }
        lemma_remove_name_entry(s.drop_last(), name, n);
        let front = rs_remove_name(s.drop_last(), name);
        lemma_group_name_idx_bounds(s.drop_last(), n);
        lemma_group_name_idx_bounds(front, n);
        if s.last().0.name == name {
            // The last element is dropped; entries under other names are
            // those of the front, and the front has no entry named `name`.
            assert(rs_remove_name(s, name) == front);
            if n != name {
                lemma_entry_vs_last(s, n);
            }
        } else {
            lemma_gnidx_push(front, s.last(), n);
            if n == s.last().0.name {
                assert(rs_remove_name(s, name)[front.len() as int] == s.last());
                lemma_entry_vs_last(s, n);
                if group_name_idx(front, n) >= 0 {
                    lemma_remove_name_sub(s.drop_last(), name, group_name_idx(front, n));
                    assert(false);
                }
            } else {
                lemma_entry_vs_last(s, n);
            }
            assert(group_names_unique(rs_remove_name(s, name))) by {
                let res = rs_remove_name(s, name);
                assert forall|a: int, b: int|
                    #![trigger res[a], res[b]]
                    0 <= a < b < res.len() implies res[a].0.name != res[b].0.name by {
                    if b == res.len() - 1 {
                        assert(res[b] == s.last());
                        assert(res[a] == front[a]);
                        lemma_remove_name_sub(s.drop_last(), name, a);
                    } else {
                        assert(res[a] == front[a]);
                        assert(res[b] == front[b]);
                    }
                }
            }
        }
    }
}

/// Every element of the filtered front comes from the original front.
proof fn lemma_remove_name_sub(s: GroupListV, name: Seq<char>, j: int)
    requires
        0 <= j < rs_remove_name(s, name).len(),
    ensures
        s.contains(rs_remove_name(s, name)[j]),
        rs_remove_name(s, name)[j].0.name != name,
    decreases s.len(),
{
    if s.len() > 0 {
        let front = rs_remove_name(s.drop_last(), name);
        if s.last().0.name == name {
            lemma_remove_name_sub(s.drop_last(), name, j);
            lemma_prefix_contains_g(s, rs_remove_name(s, name)[j]);
        } else {
            if j < front.len() {
                assert(rs_remove_name(s, name)[j] == front[j]);
                lemma_remove_name_sub(s.drop_last(), name, j);
                lemma_prefix_contains_g(s, front[j]);
            } else {
                assert(rs_remove_name(s, name)[j] == s.last());
                assert(s.contains(s.last()));
            }
        }
    }
}

/// With unique names, the entry under the last element's name is the last
/// element, and entries under other names live in the front.
proof fn lemma_entry_vs_last(s: GroupListV, n: Seq<char>)
    requires
        group_names_unique(s),
        s.len() > 0,
    ensures
        s.last().0.name == n ==> rs_entry(s, n) == Some(s.last()),
        s.last().0.name != n ==> rs_entry(s, n) == rs_entry(s.drop_last(), n),
{
    lemma_group_name_idx_bounds(s, n);
    lemma_group_name_idx_bounds(s.drop_last(), n);
    if s.last().0.name == n {
        assert forall|j: int| 0 <= j < s.len() - 1 implies (#[trigger] s[j]).0.name != n by {}
        lemma_group_name_idx_at(s, n, s.len() - 1);
    } else {
        let i = group_name_idx(s.drop_last(), n);
        if i >= 0 {
            assert forall|j: int| 0 <= j < i implies (#[trigger] s[j]).0.name != n by {
                assert(s.drop_last()[j] == s[j]);
                lemma_group_name_idx_bounds(s.drop_last(), n);
                if s.drop_last()[j].0.name == n {
                    lemma_group_name_idx_at(s.drop_last(), n, j);
                }
            }
            assert(s.drop_last()[i] == s[i]);
            lemma_group_name_idx_at(s, n, i);
        } else {
            assert forall|j: int| 0 <= j < s.len() implies (#[trigger] s[j]).0.name != n by {
                if j < s.len() - 1 {
                    assert(s.drop_last()[j] == s[j]);
                    if s[j].0.name == n {
                        lemma_group_name_idx_bounds(s.drop_last(), n);
                    }
                }
            }
            lemma_gnidx_none_local(s, n);
        }
    }
}

proof fn lemma_gnidx_none_local(s: GroupListV, n: Seq<char>)
    requires
        forall|j: int| 0 <= j < s.len() ==> (#[trigger] s[j]).0.name != n,
    ensures
        group_name_idx(s, n) == -1,
    decreases s.len(),
{
    if s.len() > 0 {
        assert(forall|j: int| 0 <= j < s.len() - 1 ==> s.drop_first()[j] == s[j + 1]);
        lemma_gnidx_none_local(s.drop_first(), n);
    }
}

/// The effect of a list of deletes on the entry under any name.
proof fn lemma_remove_all_entry(s: GroupListV, rems: GroupListV, n: Seq<char>)
    requires
        group_names_unique(s),
    ensures
        group_names_unique(rs_remove_all(s, rems)),
        rs_entry(rs_remove_all(s, rems), n) == (
        if group_name_idx(rems, n) >= 0 {
            None::<(GroupSpecV, i64)>
        } else {
            rs_entry(s, n)
        }),
    decreases rems.len(),
{
    lemma_group_name_idx_bounds(rems, n);
    if rems.len() > 0 {
        lemma_remove_all_entry(s, rems.drop_last(), n);
        let mid = rs_remove_all(s, rems.drop_last());
        lemma_remove_name_entry(mid, rems.last().0.name, n);
        lemma_group_name_idx_bounds(rems.drop_last(), n);
        assert((group_name_idx(rems, n) >= 0) == (group_name_idx(rems.drop_last(), n) >= 0
            || rems.last().0.name == n)) by {
            lemma_gnidx_contains(rems, n);
            lemma_gnidx_contains(rems.drop_last(), n);
            lemma_prefix_name_contains(rems, n);
        }
    }
}

/// A name occurs in a list exactly when its first index exists.
proof fn lemma_gnidx_contains(s: GroupListV, n: Seq<char>)
    ensures
        (group_name_idx(s, n) >= 0) == (exists|j: int|
            0 <= j < s.len() && (#[trigger] s[j]).0.name == n),
{
    lemma_group_name_idx_bounds(s, n);
}

proof fn lemma_prefix_name_contains(s: GroupListV, n: Seq<char>)
    requires
        s.len() > 0,
    ensures
        (exists|j: int| 0 <= j < s.len() && (#[trigger] s[j]).0.name == n) == ((exists|j: int|
            0 <= j < s.len() - 1 && (#[trigger] s.drop_last()[j]).0.name == n)
            || s.last().0.name == n),
{
    if exists|j: int| 0 <= j < s.len() - 1 && (#[trigger] s.drop_last()[j]).0.name == n {
        let j = choose|j: int|
            0 <= j < s.len() - 1 && (#[trigger] s.drop_last()[j]).0.name == n;
        assert(s[j].0.name == n);
    }
    if s.last().0.name == n {
        assert(s[s.len() - 1].0.name == n);
    }
    if exists|j: int| 0 <= j < s.len() && (#[trigger] s[j]).0.name == n {
        let j = choose|j: int| 0 <= j < s.len() && (#[trigger] s[j]).0.name == n;
        if j < s.len() - 1 {
            assert(s.drop_last()[j].0.name == n);
        }
    }
}

/// Every update is an origin element.
proof fn lemma_updates_for_sub(origin: GroupListV, target: GroupListV, j: int)
    requires
        0 <= j < updates_for(origin, target).len(),
    ensures
        origin.contains(updates_for(origin, target)[j]),
    decreases origin.len(),
{
    if origin.len() > 0 {
        let front = updates_for(origin.drop_last(), target);
        let res = updates_for(origin, target);
        if j < front.len() {
            assert(res[j] == front[j]);
            lemma_updates_for_sub(origin.drop_last(), target, j);
            lemma_prefix_contains_g(origin, front[j]);
        } else {
            assert(res[j] == origin.last());
            assert(origin.contains(origin.last()));
        }
    }
}

/// An origin element that needs an update is among the updates.
proof fn lemma_updates_for_member(origin: GroupListV, target: GroupListV, x: (GroupSpecV, i64))
    requires
        origin.contains(x),
        needs_update(x, target),
    ensures
        exists|j: int|
            0 <= j < updates_for(origin, target).len() && (#[trigger] updates_for(
                origin,
                target,
            )[j]) == x,
    decreases origin.len(),
{
    if origin.len() > 0 {
        lemma_prefix_contains_g(origin, x);
        let front = updates_for(origin.drop_last(), target);
        let res = updates_for(origin, target);
        if origin.last() == x && needs_update(origin.last(), target) {
            assert(res[front.len() as int] == x);
        } else {
            lemma_updates_for_member(origin.drop_last(), target, x);
            let j = choose|j: int| 0 <= j < front.len() && (#[trigger] front[j]) == x;
            assert(res[j] == x);
        }
    }
}

/// A target element whose name the origin lacks is among the removals.
proof fn lemma_removals_for_member(target: GroupListV, origin: GroupListV, x: (GroupSpecV, i64))
    requires
        target.contains(x),
        group_name_idx(origin, x.0.name) < 0,
    ensures
        exists|j: int|
            0 <= j < removals_for(target, origin).len() && (#[trigger] removals_for(
                target,
                origin,
            )[j]) == x,
    decreases target.len(),
{
    if target.len() > 0 {
        lemma_prefix_contains_g(target, x);
        let front = removals_for(target.drop_last(), origin);
        let res = removals_for(target, origin);
        if target.last() == x {
            assert(res[front.len() as int] == x);
        } else {
            lemma_removals_for_member(target.drop_last(), origin, x);
            let j = choose|j: int| 0 <= j < front.len() && (#[trigger] front[j]) == x;
            assert(res[j] == x);
        }
    }
}

/// Apply convergence, per tenant: take one tenant's cluster store `k` and
/// ruler store `r`, both with unique group names.  After one successful
/// updater tick — every update upserted into the ruler, every removal
/// deleted from it — a tracker tick over the settled ruler store finds
/// nothing left to update.
pub proof fn lemma_apply_convergence(k: GroupListV, r: GroupListV)
    requires
        group_names_unique(k),
        group_names_unique(r),
    ensures
        ({
            let ups = updates_for(k, r);
            let rems = removals_for(r, k);
            let settled = rs_remove_all(rs_upsert_all(r, ups), rems);
            updates_for(settled, k) == Seq::<(GroupSpecV, i64)>::empty()
        }),
{
    let ups = updates_for(k, r);
    let rems = removals_for(r, k);
    let lifted = rs_upsert_all(r, ups);
    let settled = rs_remove_all(lifted, rems);
    lemma_upsert_all_entry(r, ups, Seq::<char>::empty());

    assert forall|j: int| 0 <= j < settled.len() implies !needs_update(
        #[trigger] settled[j],
        k,
    ) by {
        let g = settled[j];
        let n = g.0.name;
        lemma_remove_all_entry(lifted, rems, n);
        lemma_upsert_all_entry(r, ups, n);
        // The entry the settled store holds under n is g itself.
        assert(rs_entry(settled, n) == Some(g)) by {
            lemma_upsert_all_entry(r, ups, n);
            lemma_remove_all_entry(lifted, rems, n);
            assert forall|a: int| 0 <= a < j implies (#[trigger] settled[a]).0.name != n by {}
            lemma_group_name_idx_at(settled, n, j);
        }
        assert(group_name_idx(rems, n) < 0);
        let li = last_name_idx(ups, n);
        lemma_last_name_idx_bounds(ups, n);
        if li >= 0 {
            // g came from the updates, which are cluster groups.
            assert(ups[li] == g);
            lemma_updates_for_sub(k, r, li);
            assert(k.contains(g));
            let ki = choose|ki: int| 0 <= ki < k.len() && k[ki] == g;
            assert forall|a: int| 0 <= a < ki implies (#[trigger] k[a]).0.name != n by {}
            lemma_group_name_idx_at(k, n, ki);
            assert(k[group_name_idx(k, n)] == g);
            assert(g.0.rules.to_multiset() =~= g.0.rules.to_multiset());
        } else {
            // g survived from the original ruler store.
            assert(rs_entry(r, n) == Some(g));
            lemma_group_name_idx_bounds(r, n);
            let ri = group_name_idx(r, n);
            assert(r[ri] == g);
            assert(r.contains(g)) by {
                assert(r[ri] == g);
            }
            lemma_group_name_idx_bounds(k, n);
            if group_name_idx(k, n) < 0 {
                // Then g would have been removed.
                lemma_removals_for_member(r, k, g);
                let rj = choose|rj: int|
                    0 <= rj < rems.len() && (#[trigger] rems[rj]) == g;
                lemma_gnidx_contains(rems, n);
                assert(false);
            }
            let gk = k[group_name_idx(k, n)];
            if !group_eq(gk.0, g.0) {
                // Then the cluster group would have been upserted under n.
                assert(needs_update(gk, r)) by {
                    lemma_group_name_idx_bounds(r, gk.0.name);
                    assert(gk.0.name == n);
                }
                assert(k.contains(gk)) by {
                    assert(k[group_name_idx(k, n)] == gk);
                }
                lemma_updates_for_member(k, r, gk);
                let uj = choose|uj: int| 0 <= uj < ups.len() && (#[trigger] ups[uj]) == gk;
                lemma_last_gives_name(ups, uj, n);
                assert(false);
            }
            assert(!needs_update(g, k)) by {
                assert(group_eq(g.0, gk.0)) by {
                    assert(group_eq(gk.0, g.0));
                }
            }
        }
    }
    lemma_updates_for_none_local(settled, k);
}

proof fn lemma_last_gives_name(ups: GroupListV, j: int, n: Seq<char>)
    requires
        0 <= j < ups.len(),
        ups[j].0.name == n,
    ensures
        last_name_idx(ups, n) >= 0,
    decreases ups.len(),
{
    if ups.last().0.name != n {
        assert(j < ups.len() - 1);
        assert(ups.drop_last()[j] == ups[j]);
        lemma_last_gives_name(ups.drop_last(), j, n);
    }
}

proof fn lemma_updates_for_none_local(origin: GroupListV, target: GroupListV)
    requires
        forall|j: int| 0 <= j < origin.len() ==> !needs_update(#[trigger] origin[j], target),
    ensures
        updates_for(origin, target) == Seq::<(GroupSpecV, i64)>::empty(),
    decreases origin.len(),
{
    if origin.len() > 0 {
        assert forall|j: int|
            0 <= j < origin.len() - 1 implies !needs_update(
            #[trigger] origin.drop_last()[j],
            target,
        ) by {
            assert(origin.drop_last()[j] == origin[j]);
        }
        lemma_updates_for_none_local(origin.drop_last(), target);
        assert(origin[origin.len() - 1] == origin.last());
        assert(updates_for(origin, target) =~= Seq::<(GroupSpecV, i64)>::empty());
    }
}

/// The group list a map holds for a tenant; empty when the tenant is
/// absent.
pub open spec fn lookup_groups(m: TenantGroupsV, t: Seq<char>) -> GroupListV {
    let i = assoc_idx(m, t);
    if i >= 0 {
        m[i].1
    } else {
        Seq::empty()
    }
}

proof fn lemma_updates_for_empty_target(l: GroupListV)
    ensures
        updates_for(l, Seq::empty()) == l,
    decreases l.len(),
{
    if l.len() > 0 {
        lemma_updates_for_empty_target(l.drop_last());
        assert(updates_for(l, Seq::empty()) =~= l);
    }
}

proof fn lemma_removals_for_empty_origin(l: GroupListV)
    ensures
        removals_for(l, Seq::empty()) == l,
    decreases l.len(),
{
    if l.len() > 0 {
        lemma_removals_for_empty_origin(l.drop_last());
        assert(removals_for(l, Seq::empty()) =~= l);
    }
}

proof fn lemma_diff_updates_keys(target: TenantGroupsV, origin: TenantGroupsV)
    ensures
        forall|j: int|
            0 <= j < spec_diff_updates(target, origin).len() ==> assoc_has(
                origin,
                (#[trigger] spec_diff_updates(target, origin)[j]).0,
            ),
    decreases origin.len(),
{
    let res = spec_diff_updates(target, origin);
    if origin.len() > 0 {
        lemma_diff_updates_keys(target, origin.drop_last());
        let front = spec_diff_updates(target, origin.drop_last());
        assert forall|j: int| 0 <= j < res.len() implies assoc_has(
            origin,
            (#[trigger] res[j]).0,
        ) by {
            if j < front.len() {
                assert(res[j] == front[j]);
                lemma_assoc_idx_bounds(origin.drop_last(), front[j].0);
                let w = assoc_idx(origin.drop_last(), front[j].0);
                assert(origin[w] == origin.drop_last()[w]);
                lemma_assoc_idx_bounds(origin, front[j].0);
            } else {
                assert(res[j].0 == origin.last().0);
                assert(origin[origin.len() - 1].0 == origin.last().0);
                lemma_assoc_idx_bounds(origin, origin.last().0);
            }
        }
    }
}

proof fn lemma_diff_removals_keys(target: TenantGroupsV, origin: TenantGroupsV)
    ensures
        forall|j: int|
            0 <= j < spec_diff_removals(target, origin).len() ==> assoc_has(
                target,
                (#[trigger] spec_diff_removals(target, origin)[j]).0,
            ),
    decreases target.len(),
{
    let res = spec_diff_removals(target, origin);
    if target.len() > 0 {
        lemma_diff_removals_keys(target.drop_last(), origin);
        let front = spec_diff_removals(target.drop_last(), origin);
        assert forall|j: int| 0 <= j < res.len() implies assoc_has(
            target,
            (#[trigger] res[j]).0,
        ) by {
            if j < front.len() {
                assert(res[j] == front[j]);
                lemma_assoc_idx_bounds(target.drop_last(), front[j].0);
                let w = assoc_idx(target.drop_last(), front[j].0);
                assert(target[w] == target.drop_last()[w]);
                lemma_assoc_idx_bounds(target, front[j].0);
            } else {
                assert(res[j].0 == target.last().0);
                assert(target[target.len() - 1].0 == target.last().0);
                lemma_assoc_idx_bounds(target, target.last().0);
            }
        }
    }
}

/// What the update half of a diff holds for one tenant, as a lookup: the
/// per-tenant update list, with an absent tenant reading as empty.
proof fn lemma_diff_updates_lookup(target: TenantGroupsV, origin: TenantGroupsV, t: Seq<char>)
    requires
        assoc_wf(origin),
    ensures
        lookup_groups(spec_diff_updates(target, origin), t) == updates_for(
            lookup_groups(origin, t),
            lookup_groups(target, t),
        ),
    decreases origin.len(),
{
    let res = spec_diff_updates(target, origin);
    lemma_assoc_idx_bounds(target, t);
    lemma_assoc_idx_bounds(origin, t);
    if origin.len() == 0 {
        assert(lookup_groups(res, t) =~= Seq::<(GroupSpecV, i64)>::empty());
    } else {
        assert(assoc_wf(origin.drop_last())) by {
            assert forall|a: int, b: int|
                #![trigger origin.drop_last()[a], origin.drop_last()[b]]
                0 <= a < b < origin.drop_last().len() implies origin.drop_last()[a].0
                != origin.drop_last()[b].0 by {
                assert(origin.drop_last()[a] == origin[a]);
                assert(origin.drop_last()[b] == origin[b]);
            }
        }
        lemma_diff_updates_lookup(target, origin.drop_last(), t);
        let front = spec_diff_updates(target, origin.drop_last());
        let entry = origin.last();
        let ti = assoc_idx(target, entry.0);
        let ups = if ti >= 0 { updates_for(entry.1, target[ti].1) } else { entry.1 };
        lemma_diff_updates_keys(target, origin.drop_last());
        assert(!assoc_has(front, entry.0)) by {
            if assoc_has(front, entry.0) {
                lemma_assoc_idx_bounds(front, entry.0);
                let w = assoc_idx(front, entry.0);
                assert(assoc_has(origin.drop_last(), front[w].0));
                lemma_assoc_idx_bounds(origin.drop_last(), entry.0);
                let v = assoc_idx(origin.drop_last(), entry.0);
                assert(origin[v] == origin.drop_last()[v]);
                assert(origin[v].0 == origin[origin.len() - 1].0);
            }
        }
        lemma_assoc_idx_bounds(origin.drop_last(), t);
        if t == entry.0 {
            // The last origin entry is this tenant; it is fresh in the map.
            assert(!assoc_has(origin.drop_last(), t)) by {
                if assoc_has(origin.drop_last(), t) {
                    lemma_assoc_idx_bounds(origin.drop_last(), t);
                    let v = assoc_idx(origin.drop_last(), t);
                    assert(origin[v] == origin.drop_last()[v]);
                    assert(origin[v].0 == origin[origin.len() - 1].0);
                }
            }
            assert forall|j: int| 0 <= j < origin.len() - 1 implies (#[trigger] origin[j]).0
                != t by {
                assert(origin.drop_last()[j] == origin[j]);
                if origin[j].0 == t {
                    lemma_assoc_idx_bounds(origin.drop_last(), t);
                }
            }
            assert(origin[origin.len() - 1].0 == t);
            lemma_assoc_idx_at(origin, t, origin.len() - 1);
            assert(lookup_groups(origin, t) == entry.1);
            if ti >= 0 {
                assert(lookup_groups(target, t) == target[ti].1);
            } else {
                assert(lookup_groups(target, t) =~= Seq::<(GroupSpecV, i64)>::empty());
                lemma_updates_for_empty_target(entry.1);
            }
            if ups.len() > 0 {
                lemma_assoc_idx_push(front, (entry.0, ups), t);
                assert(res[front.len() as int] == (entry.0, ups));
                assert(lookup_groups(res, t) == ups);
            } else {
                assert(lookup_groups(res, t) == lookup_groups(front, t));
                assert(lookup_groups(front, t) =~= Seq::<(GroupSpecV, i64)>::empty());
                assert(updates_for(lookup_groups(origin, t), lookup_groups(target, t))
                    =~= Seq::<(GroupSpecV, i64)>::empty());
            }
        } else {
            // Another tenant: the last entry does not disturb its lookup.
            assert(lookup_groups(origin, t) == lookup_groups(origin.drop_last(), t)) by {
                assert(origin =~= origin.drop_last().push(entry));
                lemma_assoc_idx_push(origin.drop_last(), entry, t);
                if assoc_has(origin.drop_last(), t) {
                    let v = assoc_idx(origin.drop_last(), t);
                    assert(origin[v] == origin.drop_last()[v]);
                }
            }
            if ups.len() > 0 {
                lemma_assoc_idx_push(front, (entry.0, ups), t);
                if assoc_has(front, t) {
                    lemma_assoc_idx_bounds(front, t);
                    let w = assoc_idx(front, t);
                    assert(res[w] == front[w]);
                }
                assert(lookup_groups(res, t) == lookup_groups(front, t));
            }
        }
    }
}

/// What the removal half of a diff holds for one tenant, as a lookup.
proof fn lemma_diff_removals_lookup(target: TenantGroupsV, origin: TenantGroupsV, t: Seq<char>)
    requires
        assoc_wf(target),
    ensures
        lookup_groups(spec_diff_removals(target, origin), t) == removals_for(
            lookup_groups(target, t),
            lookup_groups(origin, t),
        ),
    decreases target.len(),
{
    let res = spec_diff_removals(target, origin);
    lemma_assoc_idx_bounds(target, t);
    lemma_assoc_idx_bounds(origin, t);
    if target.len() == 0 {
        assert(lookup_groups(res, t) =~= Seq::<(GroupSpecV, i64)>::empty());
    } else {
        assert(assoc_wf(target.drop_last())) by {
            assert forall|a: int, b: int|
                #![trigger target.drop_last()[a], target.drop_last()[b]]
                0 <= a < b < target.drop_last().len() implies target.drop_last()[a].0
                != target.drop_last()[b].0 by {
                assert(target.drop_last()[a] == target[a]);
                assert(target.drop_last()[b] == target[b]);
            }
        }
        lemma_diff_removals_lookup(target.drop_last(), origin, t);
        let front = spec_diff_removals(target.drop_last(), origin);
        let entry = target.last();
        let oi = assoc_idx(origin, entry.0);
        let rems = if oi >= 0 { removals_for(entry.1, origin[oi].1) } else { entry.1 };
        lemma_diff_removals_keys(target.drop_last(), origin);
        assert(!assoc_has(front, entry.0)) by {
            if assoc_has(front, entry.0) {
                lemma_assoc_idx_bounds(front, entry.0);
                let w = assoc_idx(front, entry.0);
                assert(assoc_has(target.drop_last(), front[w].0));
                lemma_assoc_idx_bounds(target.drop_last(), entry.0);
                let v = assoc_idx(target.drop_last(), entry.0);
                assert(target[v] == target.drop_last()[v]);
                assert(target[v].0 == target[target.len() - 1].0);
            }
        }
        lemma_assoc_idx_bounds(target.drop_last(), t);
        if t == entry.0 {
            assert(!assoc_has(target.drop_last(), t)) by {
                if assoc_has(target.drop_last(), t) {
                    lemma_assoc_idx_bounds(target.drop_last(), t);
                    let v = assoc_idx(target.drop_last(), t);
                    assert(target[v] == target.drop_last()[v]);
                    assert(target[v].0 == target[target.len() - 1].0);
                }
            }
            assert forall|j: int| 0 <= j < target.len() - 1 implies (#[trigger] target[j]).0
                != t by {
                assert(target.drop_last()[j] == target[j]);
                if target[j].0 == t {
                    lemma_assoc_idx_bounds(target.drop_last(), t);
                }
            }
            assert(target[target.len() - 1].0 == t);
            lemma_assoc_idx_at(target, t, target.len() - 1);
            assert(lookup_groups(target, t) == entry.1);
            if oi >= 0 {
                assert(lookup_groups(origin, t) == origin[oi].1);
            } else {
                assert(lookup_groups(origin, t) =~= Seq::<(GroupSpecV, i64)>::empty());
                lemma_removals_for_empty_origin(entry.1);
            }
            if rems.len() > 0 {
                lemma_assoc_idx_push(front, (entry.0, rems), t);
                assert(res[front.len() as int] == (entry.0, rems));
                assert(lookup_groups(res, t) == rems);
            } else {
                assert(lookup_groups(res, t) == lookup_groups(front, t));
                assert(lookup_groups(front, t) =~= Seq::<(GroupSpecV, i64)>::empty());
                assert(removals_for(lookup_groups(target, t), lookup_groups(origin, t))
                    =~= Seq::<(GroupSpecV, i64)>::empty());
            }
        } else {
            assert(lookup_groups(target, t) == lookup_groups(target.drop_last(), t)) by {
                assert(target =~= target.drop_last().push(entry));
                lemma_assoc_idx_push(target.drop_last(), entry, t);
                if assoc_has(target.drop_last(), t) {
                    let v = assoc_idx(target.drop_last(), t);
                    assert(target[v] == target.drop_last()[v]);
                }
            }
            if rems.len() > 0 {
                lemma_assoc_idx_push(front, (entry.0, rems), t);
                if assoc_has(front, t) {
                    lemma_assoc_idx_bounds(front, t);
                    let w = assoc_idx(front, t);
                    assert(res[w] == front[w]);
                }
                assert(lookup_groups(res, t) == lookup_groups(front, t));
            }
        }
    }
}

/// Apply convergence over whole stores: take the cluster map and the
/// ruler map, both with distinct tenants and unique group names per
/// tenant.  One successful updater tick upserts every update into the
/// ruler and deletes every removal from it; afterwards, for every tenant,
/// a tracker tick finds nothing left to update.
pub proof fn lemma_apply_convergence_map(
    k8s_map: TenantGroupsV,
    ruler_map: TenantGroupsV,
    t: Seq<char>,
)
    requires
        assoc_wf(k8s_map),
        assoc_wf(ruler_map),
        forall|j: int| 0 <= j < k8s_map.len() ==> group_names_unique((#[trigger] k8s_map[j]).1),
        forall|j: int|
            0 <= j < ruler_map.len() ==> group_names_unique((#[trigger] ruler_map[j]).1),
    ensures
        ({
            let ups = spec_diff_updates(ruler_map, k8s_map);
            let rems = spec_diff_removals(ruler_map, k8s_map);
            let settled = rs_remove_all(
                rs_upsert_all(lookup_groups(ruler_map, t), lookup_groups(ups, t)),
                lookup_groups(rems, t),
            );
            updates_for(settled, lookup_groups(k8s_map, t)) == Seq::<(GroupSpecV, i64)>::empty()
        }),
{
    lemma_diff_updates_lookup(ruler_map, k8s_map, t);
    lemma_diff_removals_lookup(ruler_map, k8s_map, t);
    lemma_assoc_idx_bounds(k8s_map, t);
    lemma_assoc_idx_bounds(ruler_map, t);
    assert(group_names_unique(lookup_groups(k8s_map, t)));
    assert(group_names_unique(lookup_groups(ruler_map, t)));
    lemma_apply_convergence(lookup_groups(k8s_map, t), lookup_groups(ruler_map, t));
}

} // verus!
