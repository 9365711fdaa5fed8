//! The rule-group data model.
//!
//! Rule groups are what the reconciler synchronizes between the cluster
//! resources and the backend ruler.  A rule is recording or alerting,
//! depending on which of `record` / `alert` is set; a group is a named,
//! optionally interval-scheduled, ordered list of rules.  Group equality
//! compares the rules as a multiset, rule equality is field-wise, with an
//! absent optional distinct from an empty one.  Label and annotation maps
//! are carried as key-sorted pair lists.

use vstd::prelude::*;
use vstd::multiset::Multiset;

verus! {

/// The view of an optional string.
pub open spec fn view_opt(o: Option<String>) -> Option<Seq<char>> {
    match o {
        Some(s) => Some(s@),
        None => None,
    }
}

/// The view of a pair list.
pub open spec fn view_pairs(v: Seq<(String, String)>) -> Seq<(Seq<char>, Seq<char>)> {
    v.map_values(|p: (String, String)| (p.0@, p.1@))
}

/// The view of an optional pair list.
pub open spec fn view_opt_pairs(o: Option<Vec<(String, String)>>) -> Option<
    Seq<(Seq<char>, Seq<char>)>,
> {
    match o {
        Some(v) => Some(view_pairs(v@)),
        None => None,
    }
}

/// A specification for an alerting or recording rule.
#[derive(Debug, PartialEq, Eq)]
pub struct RuleSpec {
    pub alert: Option<String>,
    pub annotations: Option<Vec<(String, String)>>,
    pub labels: Option<Vec<(String, String)>>,
    pub record: Option<String>,
    pub for_: Option<String>,
    pub expr: String,
}

/// The mathematical value of a `RuleSpec`.
pub struct RuleSpecV {
    pub alert: Option<Seq<char>>,
    pub annotations: Option<Seq<(Seq<char>, Seq<char>)>>,
    pub labels: Option<Seq<(Seq<char>, Seq<char>)>>,
    pub record: Option<Seq<char>>,
    pub for_: Option<Seq<char>>,
    pub expr: Seq<char>,
}

impl View for RuleSpec {
    type V = RuleSpecV;

    open spec fn view(&self) -> RuleSpecV {
        RuleSpecV {
            alert: view_opt(self.alert),
            annotations: view_opt_pairs(self.annotations),
            labels: view_opt_pairs(self.labels),
            record: view_opt(self.record),
            for_: view_opt(self.for_),
            expr: self.expr@,
        }
    }
}

/// A specification for a group of rules.
#[derive(Debug, PartialEq, Eq)]
pub struct GroupSpec {
    pub name: String,
    pub interval: Option<String>,
    pub rules: Vec<RuleSpec>,
}

/// The mathematical value of a `GroupSpec`.
pub struct GroupSpecV {
    pub name: Seq<char>,
    pub interval: Option<Seq<char>>,
    pub rules: Seq<RuleSpecV>,
}

impl View for GroupSpec {
    type V = GroupSpecV;

    open spec fn view(&self) -> GroupSpecV {
        GroupSpecV {
            name: self.name@,
            interval: view_opt(self.interval),
            rules: self.rules@.map_values(|r: RuleSpec| r@),
        }
    }
}

/// A rule is well formed when exactly one of `record` / `alert` is set.
pub open spec fn rule_wf(r: RuleSpecV) -> bool {
    (r.record is Some) != (r.alert is Some)
}

/// Whether a rule is well formed: it records or it alerts, never both and
/// never neither.
pub fn rule_is_well_formed(r: &RuleSpec) -> (b: bool)
    ensures
        b == rule_wf(r@),
{
    match (&r.record, &r.alert) {
        (Some(_), None) => true,
        (None, Some(_)) => true,
        _ => false,
    }
}

/// Whether every rule of every group is well formed.
#[verifier::loop_isolation(false)]
pub fn groups_well_formed(groups: &Vec<GroupSpec>) -> (b: bool)
    ensures
        b == forall|i: int, j: int|
            0 <= i < groups@.len() && 0 <= j < (#[trigger] groups@[i]@.rules).len()
                ==> rule_wf(#[trigger] groups@[i]@.rules[j]),
{
    let mut i: usize = 0;
    while i < groups.len()
        invariant
            i <= groups@.len(),
            forall|a: int, j: int|
                0 <= a < i && 0 <= j < (#[trigger] groups@[a]@.rules).len() ==> rule_wf(
                    #[trigger] groups@[a]@.rules[j],
                ),
        decreases groups@.len() - i,
    {
        let group = &groups[i];
        let mut j: usize = 0;
        while j < group.rules.len()
            invariant
                j <= group@.rules.len(),
                group@ == groups@[i as int]@,
                i < groups@.len(),
                forall|k: int| 0 <= k < j ==> rule_wf(#[trigger] group@.rules[k]),
            decreases group@.rules.len() - j,
        {
            if !rule_is_well_formed(&group.rules[j]) {
                proof {
                    assert(!rule_wf(groups@[i as int]@.rules[j as int]));
                }
                return false;
            }
            j += 1;
        }
        i += 1;
    }
    true
}

/// Group equality: equal name and interval, and equal rule multisets.
pub open spec fn group_eq(a: GroupSpecV, b: GroupSpecV) -> bool {
    &&& a.name == b.name
    &&& a.interval == b.interval
    &&& a.rules.to_multiset() == b.rules.to_multiset()
}

/// The spec of a rule status: whether the ruler has been brought up to date.
#[derive(Debug, PartialEq, Eq)]
pub struct OpenMetricsRuleStatus {
    pub ruler_updated: bool,
}

/// The spec part of a rule resource: the tenants it applies to, an
/// optional description, and its rule groups.
#[derive(Debug, PartialEq, Eq)]
pub struct OpenMetricsRuleSpec {
    pub tenants: Vec<String>,
    pub description: Option<String>,
    pub groups: Vec<GroupSpec>,
}

/// The mathematical value of an `OpenMetricsRuleSpec`.
pub struct OpenMetricsRuleSpecV {
    pub tenants: Seq<Seq<char>>,
    pub description: Option<Seq<char>>,
    pub groups: Seq<GroupSpecV>,
}

impl View for OpenMetricsRuleSpec {
    type V = OpenMetricsRuleSpecV;

    open spec fn view(&self) -> OpenMetricsRuleSpecV {
        OpenMetricsRuleSpecV {
            tenants: crate::strseq::views_of(self.tenants@),
            description: view_opt(self.description),
            groups: self.groups@.map_values(|g: GroupSpec| g@),
        }
    }
}

/// One rule resource as the library models it: its name, whether the
/// stored copy still carries server-managed fields, its spec, its status.
#[derive(Debug, PartialEq, Eq)]
pub struct OpenMetricsRule {
    pub name: Option<String>,
    pub has_managed_fields: bool,
    pub spec: OpenMetricsRuleSpec,
    pub status: Option<OpenMetricsRuleStatus>,
}

/// The mathematical value of an `OpenMetricsRule`.
pub struct OpenMetricsRuleV {
    pub name: Option<Seq<char>>,
    pub has_managed_fields: bool,
    pub spec: OpenMetricsRuleSpecV,
    pub status: Option<bool>,
}

impl View for OpenMetricsRule {
    type V = OpenMetricsRuleV;

    open spec fn view(&self) -> OpenMetricsRuleV {
        OpenMetricsRuleV {
            name: view_opt(self.name),
            has_managed_fields: self.has_managed_fields,
            spec: self.spec@,
            status: match self.status {
                Some(s) => Some(s.ruler_updated),
                None => None,
            },
        }
    }
}

/// A copy of an optional string with the same characters.
pub fn clone_opt_string(o: &Option<String>) -> (r: Option<String>)
    ensures
        view_opt(r) == view_opt(*o),
{
    match o {
        Some(s) => Some(s.clone()),
        None => None,
    }
}

/// A copy of a pair list with the same character views.
#[verifier::loop_isolation(false)]
pub fn clone_pairs(v: &Vec<(String, String)>) -> (r: Vec<(String, String)>)
    ensures
        view_pairs(r@) == view_pairs(v@),
{
    let mut r: Vec<(String, String)> = Vec::new();
    let mut i: usize = 0;
    while i < v.len()
        invariant
            i <= v.len(),
            r@.len() == i,
            forall|j: int| 0 <= j < i ==> view_pairs(r@)[j] == view_pairs(v@)[j],
        decreases v.len() - i,
    {
        r.push((v[i].0.clone(), v[i].1.clone()));
        i += 1;
    }
    proof {
        assert(view_pairs(r@) =~= view_pairs(v@));
    }
    r
}

/// A copy of an optional pair list.
pub fn clone_opt_pairs(o: &Option<Vec<(String, String)>>) -> (r: Option<Vec<(String, String)>>)
    ensures
        view_opt_pairs(r) == view_opt_pairs(*o),
{
    match o {
        Some(v) => Some(clone_pairs(v)),
        None => None,
    }
}

impl RuleSpec {
    /// An equal rule under a fresh allocation.
    pub fn duplicate(&self) -> (r: RuleSpec)
        ensures
            r@ == self@,
    {
        RuleSpec {
            alert: clone_opt_string(&self.alert),
            annotations: clone_opt_pairs(&self.annotations),
            labels: clone_opt_pairs(&self.labels),
            record: clone_opt_string(&self.record),
            for_: clone_opt_string(&self.for_),
            expr: self.expr.clone(),
        }
    }
}

impl GroupSpec {
    /// An equal group under a fresh allocation.
    #[verifier::loop_isolation(false)]
    pub fn duplicate(&self) -> (r: GroupSpec)
        ensures
            r@ == self@,
    {
        let mut rules: Vec<RuleSpec> = Vec::new();
        let mut i: usize = 0;
        while i < self.rules.len()
            invariant
                i <= self.rules@.len(),
                rules@.len() == i,
                forall|j: int| 0 <= j < i ==> rules@[j]@ == self.rules@[j]@,
            decreases self.rules@.len() - i,
        {
            rules.push(self.rules[i].duplicate());
            i += 1;
        }
        let r = GroupSpec {
            name: self.name.clone(),
            interval: clone_opt_string(&self.interval),
            rules,
        };
        proof {
            assert(r@.rules =~= self@.rules);
        }
        r
    }
}

/// Whether two optional strings hold the same characters; `None` is
/// distinct from any present value.
pub fn opt_string_eq(a: &Option<String>, b: &Option<String>) -> (r: bool)
    ensures
        r == (view_opt(*a) == view_opt(*b)),
{
    match (a, b) {
        (Some(x), Some(y)) => {
            let r = x.eq(y);
            proof {
                if x@ == y@ {
                    assert(view_opt(*a) == view_opt(*b));
                } else {
                    assert(view_opt(*a) != view_opt(*b));
                }
            }
            r
        },
        (None, None) => true,
        _ => false,
    }
}

/// Whether two pair lists are equal element for element.
#[verifier::loop_isolation(false)]
pub fn pairs_eq(a: &Vec<(String, String)>, b: &Vec<(String, String)>) -> (r: bool)
    ensures
        r == (view_pairs(a@) == view_pairs(b@)),
{
    if a.len() != b.len() {
        proof {
            assert(view_pairs(a@).len() != view_pairs(b@).len());
        }
        return false;
    }
    let mut i: usize = 0;
    while i < a.len()
        invariant
            i <= a.len(),
            a@.len() == b@.len(),
            forall|j: int| 0 <= j < i ==> view_pairs(a@)[j] == view_pairs(b@)[j],
        decreases a.len() - i,
    {
        let ka = &a[i].0;
        let kb = &b[i].0;
        let va = &a[i].1;
        let vb = &b[i].1;
        if !ka.eq(kb) || !va.eq(vb) {
            proof {
                assert(view_pairs(a@)[i as int] != view_pairs(b@)[i as int]);
            }
            return false;
        }
        proof {
            assert(view_pairs(a@)[i as int] == view_pairs(b@)[i as int]);
        }
        i += 1;
    }
    proof {
        assert(view_pairs(a@) =~= view_pairs(b@));
    }
    true
}

/// Whether two optional pair lists are equal.
pub fn opt_pairs_eq(a: &Option<Vec<(String, String)>>, b: &Option<Vec<(String, String)>>) -> (r:
    bool)
    ensures
        r == (view_opt_pairs(*a) == view_opt_pairs(*b)),
{
    match (a, b) {
        (Some(x), Some(y)) => {
            let r = pairs_eq(x, y);
            proof {
                if view_pairs(x@) == view_pairs(y@) {
                    assert(view_opt_pairs(*a) == view_opt_pairs(*b));
                } else {
                    assert(view_opt_pairs(*a) != view_opt_pairs(*b));
                }
            }
            r
        },
        (None, None) => true,
        _ => false,
    }
}

/// Field-wise rule equality.
pub fn rules_equal(a: &RuleSpec, b: &RuleSpec) -> (r: bool)
    ensures
        r == (a@ == b@),
{
    let r = opt_string_eq(&a.alert, &b.alert) && opt_pairs_eq(&a.annotations, &b.annotations)
        && opt_pairs_eq(&a.labels, &b.labels) && opt_string_eq(&a.record, &b.record)
        && opt_string_eq(&a.for_, &b.for_) && a.expr.eq(&b.expr);
    proof {
        if r {
            assert(a@ == b@);
        } else {
            assert(a@ != b@);
        }
    }
    r
}

/// How many rules of `rules` equal `x`.
pub open spec fn rule_count(rules: Seq<RuleSpecV>, x: RuleSpecV) -> nat
    decreases rules.len(),
{
    if rules.len() == 0 {
        0
    } else {
        rule_count(rules.drop_last(), x) + (
        if rules.last() == x {
            1nat
        } else {
            0nat
        })
    }
}

/// `rule_count` counts exactly the multiset multiplicity.
pub proof fn lemma_rule_count_is_multiset_count(rules: Seq<RuleSpecV>, x: RuleSpecV)
    ensures
        rule_count(rules, x) == rules.to_multiset().count(x),
    decreases rules.len(),
{
    broadcast use vstd::seq_lib::group_to_multiset_ensures;

    if rules.len() == 0 {
        assert(rules.to_multiset() =~= Multiset::empty());
    } else {
        lemma_rule_count_is_multiset_count(rules.drop_last(), x);
        assert(rules =~= rules.drop_last().push(rules.last()));
        assert(rules.drop_last().push(rules.last()).to_multiset() =~= rules.drop_last()
            .to_multiset().insert(rules.last()));
    }
}

/// Counts the rules of `rules` equal to `x`.
#[verifier::loop_isolation(false)]
pub fn count_rule(rules: &Vec<RuleSpec>, x: &RuleSpec) -> (r: usize)
    ensures
        r as nat == rule_count(rules@.map_values(|t: RuleSpec| t@), x@),
{
    let ghost rv = rules@.map_values(|t: RuleSpec| t@);
    let mut count: usize = 0;
    let mut i: usize = 0;
    while i < rules.len()
        invariant
            i <= rv.len(),
            count <= i,
            count as nat == rule_count(rv.take(i as int), x@),
        decreases rv.len() - i,
    {
        proof {
            assert(rv.take(i + 1).drop_last() =~= rv.take(i as int));
            assert(rv.take(i + 1).last() == rules@[i as int]@);
        }
        if rules_equal(&rules[i], x) {
            count += 1;
        }
        i += 1;
    }
    proof {
        assert(rv.take(rv.len() as int) =~= rv);
    }
    count
}

/// Whether two rule lists are equal as multisets.
#[verifier::loop_isolation(false)]
pub fn rule_multiset_eq(a: &Vec<RuleSpec>, b: &Vec<RuleSpec>) -> (r: bool)
    ensures
        r == (a@.map_values(|t: RuleSpec| t@).to_multiset() == b@.map_values(
            |t: RuleSpec| t@,
        ).to_multiset()),
{
    broadcast use vstd::seq_lib::group_to_multiset_ensures;

    let ghost av = a@.map_values(|t: RuleSpec| t@);
    let ghost bv = b@.map_values(|t: RuleSpec| t@);
    let mut i: usize = 0;
    while i < a.len()
        invariant
            i <= av.len(),
            forall|j: int|
                0 <= j < i ==> av.to_multiset().count(#[trigger] av[j]) == bv.to_multiset()
                    .count(av[j]),
        decreases av.len() - i,
    {
        let ca = count_rule(a, &a[i]);
        let cb = count_rule(b, &a[i]);
        proof {
            lemma_rule_count_is_multiset_count(av, a@[i as int]@);
            lemma_rule_count_is_multiset_count(bv, a@[i as int]@);
        }
        if ca != cb {
            proof {
                assert(av.to_multiset().count(av[i as int]) != bv.to_multiset().count(
                    av[i as int]));
            }
            return false;
        }
        i += 1;
    }
    let mut j: usize = 0;
    while j < b.len()
        invariant
            j <= bv.len(),
            forall|k: int|
                0 <= k < av.len() ==> av.to_multiset().count(#[trigger] av[k]) == bv
                    .to_multiset().count(av[k]),
            forall|k: int|
                0 <= k < j ==> av.to_multiset().count(#[trigger] bv[k]) == bv.to_multiset()
                    .count(bv[k]),
        decreases bv.len() - j,
    {
        let ca = count_rule(a, &b[j]);
        let cb = count_rule(b, &b[j]);
        proof {
            lemma_rule_count_is_multiset_count(av, b@[j as int]@);
            lemma_rule_count_is_multiset_count(bv, b@[j as int]@);
        }
        if ca != cb {
            proof {
                assert(av.to_multiset().count(bv[j as int]) != bv.to_multiset().count(
                    bv[j as int]));
            }
            return false;
        }
        j += 1;
    }
    proof {
        assert(av.to_multiset() =~= bv.to_multiset()) by {
            assert forall|x: RuleSpecV|
                av.to_multiset().count(x) == bv.to_multiset().count(x) by {
                if av.to_multiset().count(x) > 0 {
                    assert(av.contains(x));
                    let k = choose|k: int| 0 <= k < av.len() && av[k] == x;
                    assert(av.to_multiset().count(av[k]) == bv.to_multiset().count(av[k]));
                } else if bv.to_multiset().count(x) > 0 {
                    assert(bv.contains(x));
                    let k = choose|k: int| 0 <= k < bv.len() && bv[k] == x;
                    assert(av.to_multiset().count(bv[k]) == bv.to_multiset().count(bv[k]));
                }
            }
        }
    }
    true
}

/// Group equality: name, interval, and the rule multiset.
pub fn are_groups_equal(original: &GroupSpec, copy: &GroupSpec) -> (r: bool)
    ensures
        r == group_eq(original@, copy@),
{
    original.name.eq(&copy.name) && opt_string_eq(&original.interval, &copy.interval)
        && rule_multiset_eq(&original.rules, &copy.rules)
}

/// The first index of a group with the given name, or `-1`.
pub open spec fn group_name_idx(groups: Seq<(GroupSpecV, i64)>, name: Seq<char>) -> int
    decreases groups.len(),
{
    if groups.len() == 0 {
        -1
    } else if groups[0].0.name == name {
        0
    } else {
        let r = group_name_idx(groups.drop_first(), name);
        if r < 0 {
            -1
        } else {
            r + 1
        }
    }
}

pub proof fn lemma_group_name_idx_bounds(groups: Seq<(GroupSpecV, i64)>, name: Seq<char>)
    ensures
        -1 <= group_name_idx(groups, name) < groups.len(),
        group_name_idx(groups, name) >= 0 ==> groups[group_name_idx(groups, name)].0.name
            == name,
        forall|j: int|
            0 <= j < groups.len() && groups[j].0.name == name ==> group_name_idx(groups, name)
                >= 0,
    decreases groups.len(),
{
    if groups.len() > 0 && groups[0].0.name != name {
        lemma_group_name_idx_bounds(groups.drop_first(), name);
        assert forall|j: int|
            0 <= j < groups.len() && groups[j].0.name == name implies group_name_idx(
            groups,
            name,
        ) >= 0 by {
            assert(groups.drop_first()[j - 1] == groups[j]);
        }
    }
}

pub proof fn lemma_group_name_idx_at(groups: Seq<(GroupSpecV, i64)>, name: Seq<char>, i: int)
    requires
        0 <= i < groups.len(),
        groups[i].0.name == name,
        forall|j: int| 0 <= j < i ==> groups[j].0.name != name,
    ensures
        group_name_idx(groups, name) == i,
    decreases groups.len(),
{
    if groups[0].0.name != name {
        assert(forall|j: int|
            0 <= j < groups.len() - 1 ==> groups.drop_first()[j] == groups[j + 1]);
        lemma_group_name_idx_at(groups.drop_first(), name, i - 1);
    }
}

/// Finds the first group with the given name in a list of groups paired
/// with their resource back-reference indices; `None` when there is none.
#[verifier::loop_isolation(false)]
pub fn find_group_named(group_list: &Vec<(GroupSpec, i64)>, group_name: &String) -> (r: Option<
    usize,
>)
    ensures
        ({
            let gv = group_list@.map_values(|e: (GroupSpec, i64)| (e.0@, e.1));
            match r {
                Some(i) => i < gv.len() && group_name_idx(gv, group_name@) == i as int,
                None => group_name_idx(gv, group_name@) == -1,
            }
        }),
{
    let ghost gv = group_list@.map_values(|e: (GroupSpec, i64)| (e.0@, e.1));
    let mut i: usize = 0;
    while i < group_list.len()
        invariant
            i <= gv.len(),
            forall|j: int| 0 <= j < i ==> gv[j].0.name != group_name@,
        decreases gv.len() - i,
    {
        if group_list[i].0.name.eq(group_name) {
            proof {
                assert(gv[i as int].0.name == group_name@);
                lemma_group_name_idx_at(gv, group_name@, i as int);
            }
            return Some(i);
        }
        i += 1;
    }
    proof {
        lemma_group_name_idx_none(gv, group_name@);
    }
    None
}

proof fn lemma_group_name_idx_none(groups: Seq<(GroupSpecV, i64)>, name: Seq<char>)
    requires
        forall|j: int| 0 <= j < groups.len() ==> groups[j].0.name != name,
    ensures
        group_name_idx(groups, name) == -1,
    decreases groups.len(),
{
    if groups.len() > 0 {
        assert(forall|j: int|
            0 <= j < groups.len() - 1 ==> groups.drop_first()[j] == groups[j + 1]);
        lemma_group_name_idx_none(groups.drop_first(), name);
    }
}

} // verus!
