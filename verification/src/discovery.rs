//! Tenant discovery.
//!
//! Live tenants come from two sources: the distributor's user statistics
//! (for the informer's tracker) and the tenant lists of the cluster rule
//! resources (for the proxy's registry worker).  The system placeholder
//! tenant `"0"` is excluded by every discovery source.  The HTTP calls
//! themselves stay outside the library; what is computed from their parsed
//! answers is verified here.

use vstd::prelude::*;
use vstd::string::StringExecFns;

use crate::rules::GroupSpec;
use crate::rules::GroupSpecV;
use crate::rules::OpenMetricsRule;
use crate::strseq::dedup_first;
use crate::strseq::lemma_dedup_first_no_duplicates;
use crate::strseq::views_of;

verus! {

/// The reserved "no tenant" placeholder id.
pub open spec fn system_tenant() -> Seq<char> {
    "0"@
}

/// The user ids of one distributor answer with the system tenant dropped,
/// in answer order.
pub open spec fn spec_live_tenants(ids: Seq<Seq<char>>) -> Seq<Seq<char>>
    decreases ids.len(),
{
    if ids.len() == 0 {
        Seq::empty()
    } else {
        let front = spec_live_tenants(ids.drop_last());
        if ids.last() == system_tenant() {
            front
        } else {
            front.push(ids.last())
        }
    }
}

/// Extracts the tenant list from the parsed user statistics of the
/// distributor: the distinct `userID` values in answer order, except the
/// system tenant `"0"`.
#[verifier::loop_isolation(false)]
pub fn extract_tenants(user_ids: Vec<String>) -> (r: Vec<String>)
    ensures
        views_of(r@) == dedup_first(spec_live_tenants(views_of(user_ids@))),
        views_of(r@).no_duplicates(),
        forall|j: int| 0 <= j < r@.len() ==> views_of(r@)[j] != system_tenant(),
{
    let ghost ids = views_of(user_ids@);
    let zero: String = String::from_str("0");
    let mut r: Vec<String> = Vec::new();
    proof {
        assert(views_of(r@) =~= dedup_first(spec_live_tenants(ids.take(0))));
    }
    let mut i: usize = 0;
    while i < user_ids.len()
        invariant
            i <= ids.len(),
            zero@ == system_tenant(),
            views_of(r@) == dedup_first(spec_live_tenants(ids.take(i as int))),
            forall|j: int| 0 <= j < r@.len() ==> views_of(r@)[j] != system_tenant(),
        decreases ids.len() - i,
    {
        let id = &user_ids[i];
        proof {
            assert(ids.take(i + 1).drop_last() =~= ids.take(i as int));
            assert(ids.take(i + 1).last() == id@);
            if id@ != system_tenant() {
                assert(spec_live_tenants(ids.take(i + 1)).drop_last() =~= spec_live_tenants(
                    ids.take(i as int)));
                assert(spec_live_tenants(ids.take(i + 1)).last() == id@);
            }
        }
        if !id.eq(&zero) && !crate::strseq::contains_string(&r, id) {
            let ghost before = r@;
            r.push(id.clone());
            proof {
                assert(views_of(r@) =~= views_of(before).push(id@));
            }
        }
        i += 1;
    }
    proof {
        assert(ids.take(ids.len() as int) =~= ids);
        crate::strseq::lemma_dedup_first_no_duplicates(spec_live_tenants(ids));
    }
    r
}

/// The tenant lists of a resource list, concatenated in order.
pub open spec fn all_rule_tenants(rules: Seq<crate::rules::OpenMetricsRuleV>) -> Seq<Seq<char>>
    decreases rules.len(),
{
    if rules.len() == 0 {
        Seq::empty()
    } else {
        all_rule_tenants(rules.drop_last()) + rules.last().spec.tenants
    }
}

/// Extracts the set of tenants named by a list of rule resources: every
/// tenant once, in first-appearance order.
#[verifier::loop_isolation(false)]
pub fn discover_tenant_ids(tenants_rules: Vec<OpenMetricsRule>) -> (r: Vec<String>)
    ensures
        views_of(r@) == dedup_first(
            all_rule_tenants(tenants_rules@.map_values(|x: OpenMetricsRule| x@)),
        ),
        views_of(r@).no_duplicates(),
{
    let ghost rv = tenants_rules@.map_values(|x: OpenMetricsRule| x@);
    let mut r: Vec<String> = Vec::new();
    proof {
        assert(views_of(r@) =~= dedup_first(all_rule_tenants(rv.take(0))));
    }
    let mut i: usize = 0;
    while i < tenants_rules.len()
        invariant
            i <= rv.len(),
            views_of(r@) == dedup_first(all_rule_tenants(rv.take(i as int))),
        decreases rv.len() - i,
    {
        let rule = &tenants_rules[i];
        let ghost tenants_v = rule.spec@.tenants;
        proof {
            assert(rv.take(i + 1).drop_last() =~= rv.take(i as int));
            assert(rv.take(i + 1).last() == rule@);
        }
        let ghost base = all_rule_tenants(rv.take(i as int));
        let mut ti: usize = 0;
        while ti < rule.spec.tenants.len()
            invariant
                ti <= tenants_v.len(),
                tenants_v == rule.spec@.tenants,
                views_of(r@) == dedup_first(base + tenants_v.take(ti as int)),
            decreases tenants_v.len() - ti,
        {
            let tenant_id = &rule.spec.tenants[ti];
            proof {
                assert((base + tenants_v.take(ti + 1)).drop_last() =~= base
                    + tenants_v.take(ti as int));
                assert((base + tenants_v.take(ti + 1)).last() == tenant_id@);
            }
            if !crate::strseq::contains_string(&r, tenant_id) {
                let ghost before = r@;
                r.push(tenant_id.clone());
                proof {
                    assert(views_of(r@) =~= views_of(before).push(tenant_id@));
                }
            }
            ti += 1;
        }
        proof {
            assert(tenants_v.take(tenants_v.len() as int) =~= tenants_v);
            assert(base + tenants_v =~= all_rule_tenants(rv.take(i + 1)));
        }
        i += 1;
    }
    proof {
        assert(rv.take(rv.len() as int) =~= rv);
        lemma_dedup_first_no_duplicates(all_rule_tenants(rv));
    }
    r
}

/// The groups of one parsed ruler answer, flattened over its namespaces in
/// order, each tagged with the "from the ruler" index `-1`.
pub open spec fn spec_flatten_ruler_groups(parsed: Seq<(Seq<char>, Seq<GroupSpecV>)>) -> Seq<
    (GroupSpecV, i64),
>
    decreases parsed.len(),
{
    if parsed.len() == 0 {
        Seq::empty()
    } else {
        spec_flatten_ruler_groups(parsed.drop_last()) + parsed.last().1.map_values(
            |g: GroupSpecV| (g, -1i64),
        )
    }
}

/// The view of a parsed ruler answer: namespace name to group list.
pub open spec fn ruler_body_view(parsed: Seq<(String, Vec<GroupSpec>)>) -> Seq<
    (Seq<char>, Seq<GroupSpecV>),
> {
    parsed.map_values(
        |e: (String, Vec<GroupSpec>)| (e.0@, e.1@.map_values(|g: GroupSpec| g@)),
    )
}

/// Why one reconciliation tick gave up.
#[derive(Clone, Copy, Debug, PartialEq, Eq)]
pub enum TickError {
    /// The ruler answered with a body that was not the expected YAML.
    MalformedRuleYaml,
    /// The ruler, the distributor or the cluster API could not be read.
    Transient,
}

/// Decides one ruler list answer, as the tick driver must treat it: a
/// `200` answer takes its parsed body, flattened over the namespaces; a
/// `404` whose body says that no rule groups exist is an empty list; any
/// other answer, and a `200` whose body did not parse, aborts the tick.
#[verifier::loop_isolation(false)]
pub fn ruler_list_outcome(
    status: u16,
    parsed_body: Option<Vec<(String, Vec<GroupSpec>)>>,
    body_text: &String,
) -> (r: Result<Vec<(GroupSpec, i64)>, TickError>)
    ensures
        ({
            let no_groups: Seq<char> = "no rule groups found"@;
            match r {
                Ok(groups) => {
                    let gv = crate::diff::group_list_view(groups@);
                    ||| (status == 200 && parsed_body is Some && gv
                        == spec_flatten_ruler_groups(ruler_body_view(parsed_body.unwrap()@)))
                    ||| (status == 404 && body_text@ == no_groups && gv == Seq::<(
                        GroupSpecV,
                        i64,
                    )>::empty())
                },
                Err(TickError::MalformedRuleYaml) => status == 200 && parsed_body is None,
                Err(TickError::Transient) => status != 200 && (status != 404 || body_text@
                    != no_groups),
            }
        }),
{
    if status == 200 {
        match parsed_body {
            Some(namespaces) => {
                let ghost nv = ruler_body_view(namespaces@);
                let mut groups: Vec<(GroupSpec, i64)> = Vec::new();
                proof {
                    assert(crate::diff::group_list_view(groups@) =~= spec_flatten_ruler_groups(
                        nv.take(0)));
                }
                let mut i: usize = 0;
                while i < namespaces.len()
                    invariant
                        i <= nv.len(),
                        nv == ruler_body_view(namespaces@),
                        crate::diff::group_list_view(groups@) == spec_flatten_ruler_groups(
                            nv.take(i as int)),
                    decreases nv.len() - i,
                {
                    let glist = &namespaces[i].1;
                    let ghost glv = glist@.map_values(|g: GroupSpec| g@);
                    proof {
                        assert(nv.take(i + 1).drop_last() =~= nv.take(i as int));
                        assert(nv.take(i + 1).last() == nv[i as int]);
                        assert(nv[i as int].1 == glv);
                    }
                    let ghost before_ns = crate::diff::group_list_view(groups@);
                    let mut gi: usize = 0;
                    while gi < glist.len()
                        invariant
                            gi <= glv.len(),
                            glv == glist@.map_values(|g: GroupSpec| g@),
                            crate::diff::group_list_view(groups@) == before_ns + glv.take(
                                gi as int).map_values(|g: GroupSpecV| (g, -1i64)),
                        decreases glv.len() - gi,
                    {
                        let ghost before = groups@;
                        groups.push((glist[gi].duplicate(), -1));
                        proof {
                            assert(crate::diff::group_list_view(groups@)
                                =~= crate::diff::group_list_view(before).push(
                                (glv[gi as int], -1i64)));
                            assert(before_ns + glv.take(gi + 1).map_values(
                                |g: GroupSpecV| (g, -1i64),
                            ) =~= (before_ns + glv.take(gi as int).map_values(
                                |g: GroupSpecV| (g, -1i64),
                            )).push((glv[gi as int], -1i64)));
                        }
                        gi += 1;
                    }
                    proof {
                        assert(glv.take(glv.len() as int) =~= glv);
                        assert(before_ns + glv.map_values(|g: GroupSpecV| (g, -1i64))
                            =~= spec_flatten_ruler_groups(nv.take(i + 1)));
                    }
                    i += 1;
                }
                proof {
                    assert(nv.take(nv.len() as int) =~= nv);
                }
                Ok(groups)
            },
            None => Err(TickError::MalformedRuleYaml),
        }
    } else if status == 404 {
        let no_groups = String::from_str("no rule groups found");
        if body_text.eq(&no_groups) {
            let groups: Vec<(GroupSpec, i64)> = Vec::new();
            proof {
                assert(crate::diff::group_list_view(groups@) =~= Seq::<(
                    GroupSpecV,
                    i64,
                )>::empty());
            }
            Ok(groups)
        } else {
            Err(TickError::Transient)
        }
    } else {
        Err(TickError::Transient)
    }
}

/// Decides one ruler list attempt as a whole: a transport failure — no
/// answer at all — aborts the tick, and an answer is decided exactly as
/// `ruler_list_outcome` decides it.
pub fn ruler_answer_outcome(
    answer: Option<(u16, Option<Vec<(String, Vec<GroupSpec>)>>, String)>,
) -> (r: Result<Vec<(GroupSpec, i64)>, TickError>)
    ensures
        ({
            let no_groups: Seq<char> = "no rule groups found"@;
            match answer {
                None => r == Err::<Vec<(GroupSpec, i64)>, TickError>(TickError::Transient),
                Some(a) => {
                    let status = a.0;
                    let parsed_body = a.1;
                    let body_text = a.2;
                    match r {
                        Ok(groups) => {
                            let gv = crate::diff::group_list_view(groups@);
                            ||| (status == 200 && parsed_body is Some && gv
                                == spec_flatten_ruler_groups(ruler_body_view(
                                parsed_body.unwrap()@)))
                            ||| (status == 404 && body_text@ == no_groups && gv == Seq::<(
                                GroupSpecV,
                                i64,
                            )>::empty())
                        },
                        Err(TickError::MalformedRuleYaml) => status == 200 && parsed_body
                            is None,
                        Err(TickError::Transient) => status != 200 && (status != 404
                            || body_text@ != no_groups),
                    }
                },
            }
        }),
{
    match answer {
        None => Err(TickError::Transient),
        Some((status, parsed_body, body_text)) => ruler_list_outcome(
            status,
            parsed_body,
            &body_text,
        ),
    }
}

/// What one page of the cluster resource listing decides for the walk.
#[derive(Debug, PartialEq, Eq)]
pub enum PageAction {
    /// Follow the listing with this continue token.
    Continue(String),
    /// The listing is complete with what was collected.
    Done,
}

/// Decides one page of the resource listing walk: a failed first page
/// fails the whole listing; a failed later page ends it, keeping what was
/// already listed; a page with a non-empty continue token keeps the walk
/// going; any other page completes it.
pub fn page_step(acquired: bool, first_page: bool, continue_token: Option<String>) -> (r:
    Result<PageAction, TickError>)
    ensures
        match r {
            Ok(PageAction::Continue(t)) => acquired && continue_token is Some && t@
                == continue_token.unwrap()@ && t@.len() > 0,
            Ok(PageAction::Done) => (acquired && (continue_token is None
                || continue_token.unwrap()@.len() == 0)) || (!acquired && !first_page),
            Err(e) => e == TickError::Transient && !acquired && first_page,
        },
{
    if !acquired {
        if first_page {
            Err(TickError::Transient)
        } else {
            Ok(PageAction::Done)
        }
    } else {
        match continue_token {
            Some(token) => {
                if token.as_str().is_empty() {
                    Ok(PageAction::Done)
                } else {
                    Ok(PageAction::Continue(token))
                }
            },
            None => Ok(PageAction::Done),
        }
    }
}

/// Adds one tenant's discovered ruler groups to the map under construction,
/// as the discovery loop does: tenants with no groups are left out.
pub fn insert_tenant_groups(
    result: &mut crate::diff::TenantGroups,
    tenant_id: &String,
    groups: Vec<(GroupSpec, i64)>,
)
    ensures
        final(result)@ == (
        if groups@.len() > 0 {
            old(result)@.push((tenant_id@, crate::diff::group_list_view(groups@)))
        } else {
            old(result)@
        }),
{
    if groups.len() > 0 {
        let ghost before = result@;
        let ghost gv = crate::diff::group_list_view(groups@);
        result.entries.push((tenant_id.clone(), groups));
        proof {
            assert(result@ =~= before.push((tenant_id@, gv)));
        }
    }
}

} // verus!
