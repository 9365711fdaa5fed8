//! The shared tenant registry.
//!
//! A registry holds an initial tenant set (given once, from configuration)
//! and a dynamic tenant set (kept in step with what discovery finds), plus
//! the ordered list of both, which the proxy data plane snapshots on every
//! request.  The reader/writer lock that guards a shared registry, and the
//! discovery worker that feeds `observe`, live outside the library; the
//! state change of every operation is specified and verified here.

use vstd::prelude::*;

use crate::strseq::clone_strings;
use crate::strseq::contains_string;
use crate::strseq::dedup_first;
use crate::strseq::lemma_dedup_first_contains;
use crate::strseq::lemma_dedup_first_no_duplicates;
use crate::strseq::lemma_prefix_contains;
use crate::strseq::lemma_push_contains;
use crate::strseq::lemma_push_no_duplicates;
use crate::strseq::views_of;
use crate::strseq::keep_in;
use crate::strseq::drop_in;
use crate::strseq::lemma_keep_in_contains;
use crate::strseq::lemma_keep_in_no_duplicates;
use crate::strseq::lemma_drop_in_contains;

verus! {

/// Appends to `dynamic` every element of `found`, in order, that is neither
/// in `initial` nor already present; later duplicates are dropped.
pub open spec fn add_new(
    dynamic: Seq<Seq<char>>,
    initial: Seq<Seq<char>>,
    found: Seq<Seq<char>>,
) -> Seq<Seq<char>>
    decreases found.len(),
{
    if found.len() == 0 {
        dynamic
    } else {
        let front = add_new(dynamic, initial, found.drop_last());
        if !initial.contains(found.last()) && !front.contains(found.last()) {
            front.push(found.last())
        } else {
            front
        }
    }
}

/// The dynamic tenant set after one observation: survivors first, in their
/// old order, then the newly found tenants in discovery order.
pub open spec fn spec_observe(
    initial: Seq<Seq<char>>,
    dynamic: Seq<Seq<char>>,
    found: Seq<Seq<char>>,
) -> Seq<Seq<char>> {
    add_new(keep_in(dynamic, found), initial, found)
}




pub proof fn lemma_add_new_contains(
    dynamic: Seq<Seq<char>>,
    initial: Seq<Seq<char>>,
    found: Seq<Seq<char>>,
    x: Seq<char>,
)
    ensures
        add_new(dynamic, initial, found).contains(x) == (dynamic.contains(x) || (
        found.contains(x) && !initial.contains(x))),
    decreases found.len(),
{
    if found.len() > 0 {
        lemma_add_new_contains(dynamic, initial, found.drop_last(), x);
        lemma_prefix_contains(found, x);
        let front = add_new(dynamic, initial, found.drop_last());
        if !initial.contains(found.last()) && !front.contains(found.last()) {
            lemma_push_contains(front, found.last(), x);
        }
    }
}

pub proof fn lemma_add_new_no_duplicates(
    dynamic: Seq<Seq<char>>,
    initial: Seq<Seq<char>>,
    found: Seq<Seq<char>>,
)
    requires
        dynamic.no_duplicates(),
    ensures
        add_new(dynamic, initial, found).no_duplicates(),
    decreases found.len(),
{
    if found.len() > 0 {
        lemma_add_new_no_duplicates(dynamic, initial, found.drop_last());
        let front = add_new(dynamic, initial, found.drop_last());
        if !initial.contains(found.last()) && !front.contains(found.last()) {
            lemma_push_no_duplicates(front, found.last());
        }
    }
}

/// The tenant registry.  `tenants_vec` lists the initial tenants first and
/// then the dynamic ones, each in insertion order and without duplicates.
pub struct IngestionTenantController {
    k8s_poll_ms: u64,
    initial_tenants: Vec<String>,
    tenants: Vec<String>,
    tenants_vec: Vec<String>,
    stopping: Option<bool>,
}

impl IngestionTenantController {
    /// The views of the initial tenant ids, in insertion order.
    pub closed spec fn initial_ids(self) -> Seq<Seq<char>> {
        views_of(self.initial_tenants@)
    }

    /// The views of the dynamic tenant ids, in insertion order.
    pub closed spec fn dynamic_ids(self) -> Seq<Seq<char>> {
        views_of(self.tenants@)
    }

    /// The views of the ordered snapshot list.
    pub closed spec fn ordered_ids(self) -> Seq<Seq<char>> {
        views_of(self.tenants_vec@)
    }

    pub closed spec fn spec_poll_ms(self) -> u64 {
        self.k8s_poll_ms
    }

    pub closed spec fn spec_stopping(self) -> bool {
        self.stopping is Some
    }

    /// Well-formedness: no duplicates within either set, the two sets are
    /// disjoint, and the ordered list is exactly initial followed by dynamic.
    pub open spec fn wf(self) -> bool {
        &&& self.initial_ids().no_duplicates()
        &&& self.dynamic_ids().no_duplicates()
        &&& forall|t: Seq<char>|
            self.dynamic_ids().contains(t) ==> !self.initial_ids().contains(t)
        &&& self.ordered_ids() == self.initial_ids() + self.dynamic_ids()
    }

    /// A registry with no tenants at all.
    pub open spec fn is_fresh(self) -> bool {
        &&& self.initial_ids() == Seq::<Seq<char>>::empty()
        &&& self.dynamic_ids() == Seq::<Seq<char>>::empty()
    }

    /// Instantiate with empty values.
    pub fn new() -> (r: IngestionTenantController)
        ensures
            r.wf(),
            r.is_fresh(),
            r.spec_poll_ms() == 0,
            !r.spec_stopping(),
    {
        let r = IngestionTenantController {
            k8s_poll_ms: 0,
            initial_tenants: Vec::new(),
            tenants: Vec::new(),
            tenants_vec: Vec::new(),
            stopping: None,
        };
        proof {
            assert(r.initial_ids() =~= Seq::<Seq<char>>::empty());
            assert(r.dynamic_ids() =~= Seq::<Seq<char>>::empty());
            assert(r.ordered_ids() =~= r.initial_ids() + r.dynamic_ids());
        }
        r
    }

    /// Forget every tenant and the stop request; the poll delay is kept.
    pub fn clean(&mut self)
        ensures
            final(self).wf(),
            final(self).is_fresh(),
            final(self).spec_poll_ms() == old(self).spec_poll_ms(),
            !final(self).spec_stopping(),
    {
        self.initial_tenants = Vec::new();
        self.tenants = Vec::new();
        self.tenants_vec = Vec::new();
        self.stopping = None;
        proof {
            assert(self.initial_ids() =~= Seq::<Seq<char>>::empty());
            assert(self.dynamic_ids() =~= Seq::<Seq<char>>::empty());
            assert(self.ordered_ids() =~= self.initial_ids() + self.dynamic_ids());
        }
    }

    /// Ask the discovery worker to exit at the next tick boundary.
    pub fn set_stopping(&mut self)
        ensures
            final(self).spec_stopping(),
            final(self).initial_ids() == old(self).initial_ids(),
            final(self).dynamic_ids() == old(self).dynamic_ids(),
            final(self).ordered_ids() == old(self).ordered_ids(),
            final(self).spec_poll_ms() == old(self).spec_poll_ms(),
            final(self).wf() == old(self).wf(),
    {
        self.stopping = Some(true);
    }

    /// Initialize the poll delay parameter.
    pub fn set_k8s_poll_delay(&mut self, k8s_poll_ms: u64)
        ensures
            final(self).spec_poll_ms() == k8s_poll_ms,
            final(self).initial_ids() == old(self).initial_ids(),
            final(self).dynamic_ids() == old(self).dynamic_ids(),
            final(self).ordered_ids() == old(self).ordered_ids(),
            final(self).spec_stopping() == old(self).spec_stopping(),
            final(self).wf() == old(self).wf(),
    {
        self.k8s_poll_ms = k8s_poll_ms;
    }

    /// Initialize the tenant list from configuration, once, before the first
    /// snapshot: duplicates are dropped, insertion order is kept.
    #[verifier::loop_isolation(false)]
    pub fn set_initial_allowed_tenants(&mut self, initial_allowed_tenants: Vec<String>)
        requires
            old(self).wf(),
            old(self).is_fresh(),
        ensures
            final(self).wf(),
            final(self).initial_ids() == dedup_first(views_of(initial_allowed_tenants@)),
            final(self).dynamic_ids() == Seq::<Seq<char>>::empty(),
            final(self).ordered_ids() == final(self).initial_ids(),
            final(self).spec_poll_ms() == old(self).spec_poll_ms(),
            final(self).spec_stopping() == old(self).spec_stopping(),
    {
        let ghost all = views_of(initial_allowed_tenants@);
        proof {
            assert(views_of(self.initial_tenants@) =~= dedup_first(all.take(0)));
        }
        let mut i: usize = 0;
        while i < initial_allowed_tenants.len()
            invariant
                i <= initial_allowed_tenants.len(),
                views_of(self.initial_tenants@) == dedup_first(all.take(i as int)),
                self.tenants@ == old(self).tenants@,
                self.k8s_poll_ms == old(self).k8s_poll_ms,
                self.stopping == old(self).stopping,
            decreases initial_allowed_tenants.len() - i,
        {
            let tenant_id = &initial_allowed_tenants[i];
            proof {
                assert(all.take(i + 1).drop_last() =~= all.take(i as int));
                assert(all.take(i + 1).last() == tenant_id@);
            }
            if !contains_string(&self.initial_tenants, tenant_id) {
                let ghost before = self.initial_tenants@;
                self.initial_tenants.push(tenant_id.clone());
                proof {
                    assert(views_of(self.initial_tenants@) =~= views_of(before).push(
                        tenant_id@));
                }
            }
            i += 1;
        }
        proof {
            assert(all.take(initial_allowed_tenants@.len() as int) =~= all);
        }
        self.tenants_vec = clone_strings(&self.initial_tenants);
        proof {
            lemma_dedup_first_no_duplicates(all);
            assert(self.dynamic_ids() =~= Seq::<Seq<char>>::empty());
            assert(self.ordered_ids() =~= self.initial_ids() + self.dynamic_ids());
        }
    }

    /// Reconcile the dynamic set with one observation: tenants of `found`
    /// that are neither initial nor present are added, dynamic tenants that
    /// are absent from `found` are removed; the initial set never changes.
    #[verifier::loop_isolation(false)]
    pub fn observe(&mut self, found_tenants: Vec<String>)
        requires
            old(self).wf(),
        ensures
            final(self).wf(),
            final(self).initial_ids() == old(self).initial_ids(),
            final(self).dynamic_ids() == spec_observe(
                old(self).initial_ids(),
                old(self).dynamic_ids(),
                views_of(found_tenants@),
            ),
            final(self).ordered_ids() == final(self).initial_ids() + final(self).dynamic_ids(),
            final(self).spec_poll_ms() == old(self).spec_poll_ms(),
            final(self).spec_stopping() == old(self).spec_stopping(),
    {
        let ghost found = views_of(found_tenants@);
        let ghost old_dyn = views_of(self.tenants@);

        // Keep the surviving dynamic tenants, in their old order.
        let mut new_dyn: Vec<String> = Vec::new();
        proof {
            assert(views_of(new_dyn@) =~= keep_in(old_dyn.take(0), found));
        }
        let mut i: usize = 0;
        while i < self.tenants.len()
            invariant
                i <= self.tenants@.len(),
                self.tenants@ == old(self).tenants@,
                self.initial_tenants@ == old(self).initial_tenants@,
                views_of(new_dyn@) == keep_in(old_dyn.take(i as int), found),
            decreases self.tenants@.len() - i,
        {
            let tenant_id = &self.tenants[i];
            proof {
                assert(old_dyn.take(i + 1).drop_last() =~= old_dyn.take(i as int));
                assert(old_dyn.take(i + 1).last() == tenant_id@);
            }
            if contains_string(&found_tenants, tenant_id) {
                let ghost before = new_dyn@;
                new_dyn.push(tenant_id.clone());
                proof {
                    assert(views_of(new_dyn@) =~= views_of(before).push(tenant_id@));
                }
            }
            i += 1;
        }
        proof {
            assert(old_dyn.take(self.tenants@.len() as int) =~= old_dyn);
        }
        let ghost survivors = keep_in(old_dyn, found);

        // Append the newly found tenants, in discovery order.
        let mut j: usize = 0;
        while j < found_tenants.len()
            invariant
                j <= found_tenants@.len(),
                self.initial_tenants@ == old(self).initial_tenants@,
                views_of(new_dyn@) == add_new(survivors, old(self).initial_ids(), found.take(
                    j as int)),
            decreases found_tenants@.len() - j,
        {
            let tenant_id = &found_tenants[j];
            proof {
                assert(found.take(j + 1).drop_last() =~= found.take(j as int));
                assert(found.take(j + 1).last() == tenant_id@);
            }
            if !contains_string(&self.initial_tenants, tenant_id) && !contains_string(
                &new_dyn,
                tenant_id,
            ) {
                let ghost before = new_dyn@;
                new_dyn.push(tenant_id.clone());
                proof {
                    assert(views_of(new_dyn@) =~= views_of(before).push(tenant_id@));
                }
            }
            j += 1;
        }
        proof {
            assert(found.take(found_tenants@.len() as int) =~= found);
        }

        // Rebuild the ordered snapshot list.
        let mut ordered = clone_strings(&self.initial_tenants);
        proof {
            assert(views_of(ordered@) =~= old(self).initial_ids() + views_of(new_dyn@).take(
                0));
        }
        let mut k: usize = 0;
        while k < new_dyn.len()
            invariant
                k <= new_dyn@.len(),
                self.initial_tenants@ == old(self).initial_tenants@,
                views_of(ordered@) == old(self).initial_ids() + views_of(new_dyn@).take(
                    k as int),
            decreases new_dyn@.len() - k,
        {
            let ghost before = ordered@;
            ordered.push(new_dyn[k].clone());
            proof {
                assert(views_of(ordered@) =~= views_of(before).push(new_dyn@[k as int]@));
                assert(views_of(ordered@) =~= old(self).initial_ids() + views_of(
                    new_dyn@).take(k + 1));
            }
            k += 1;
        }
        proof {
            assert(views_of(new_dyn@).take(new_dyn@.len() as int) =~= views_of(new_dyn@));
        }
        self.tenants = new_dyn;
        self.tenants_vec = ordered;
        proof {
            lemma_keep_in_no_duplicates(old_dyn, found);
            lemma_add_new_no_duplicates(survivors, old(self).initial_ids(), found);
            assert forall|t: Seq<char>| self.dynamic_ids().contains(t) implies !self
                .initial_ids().contains(t) by {
                lemma_add_new_contains(survivors, old(self).initial_ids(), found, t);
                lemma_keep_in_contains(old_dyn, found, t);
            }
        }
    }

    /// Withdraws a stop request, as the worker does once it has obeyed it.
    pub fn clear_stopping(&mut self)
        ensures
            !final(self).spec_stopping(),
            final(self).initial_ids() == old(self).initial_ids(),
            final(self).dynamic_ids() == old(self).dynamic_ids(),
            final(self).ordered_ids() == old(self).ordered_ids(),
            final(self).spec_poll_ms() == old(self).spec_poll_ms(),
            final(self).wf() == old(self).wf(),
    {
        self.stopping = None;
    }

    /// The configured poll delay, in milliseconds.
    pub fn get_poll_ms(&self) -> (r: u64)
        ensures
            r == self.spec_poll_ms(),
    {
        self.k8s_poll_ms
    }

    /// Whether a stop was requested.
    pub fn is_stopping(&self) -> (r: bool)
        ensures
            r == self.spec_stopping(),
    {
        self.stopping.is_some()
    }

    /// The ordered snapshot list: initial tenants first, then dynamic ones.
    pub fn get_tenants(&self) -> (r: &Vec<String>)
        ensures
            views_of(r@) == self.ordered_ids(),
    {
        &self.tenants_vec
    }
}

/// One observation settles the registry: a second observation of the same
/// set changes nothing.
pub proof fn lemma_observe_idempotent(
    initial: Seq<Seq<char>>,
    dynamic: Seq<Seq<char>>,
    found: Seq<Seq<char>>,
)
    ensures
        spec_observe(initial, spec_observe(initial, dynamic, found), found) == spec_observe(
            initial,
            dynamic,
            found,
        ),
{
    let once = spec_observe(initial, dynamic, found);
    assert forall|t: Seq<char>| once.contains(t) implies found.contains(t) by {
        lemma_add_new_contains(keep_in(dynamic, found), initial, found, t);
        lemma_keep_in_contains(dynamic, found, t);
    }
    assert forall|t: Seq<char>| found.contains(t) && !initial.contains(t) implies once
        .contains(t) by {
        lemma_add_new_contains(keep_in(dynamic, found), initial, found, t);
    }
    lemma_keep_in_identity(once, found);
    lemma_add_new_noop(once, initial, found);
}

/// Observed from a fresh registry, the dynamic set is exactly the found
/// list, deduplicated in discovery order, with the initial tenants left out.
pub proof fn lemma_observe_fresh(initial: Seq<Seq<char>>, found: Seq<Seq<char>>)
    ensures
        spec_observe(initial, Seq::<Seq<char>>::empty(), found) == drop_in(
            dedup_first(found),
            initial,
        ),
{
    assert(keep_in(Seq::<Seq<char>>::empty(), found) == Seq::<Seq<char>>::empty());
    lemma_add_new_empty_is_dedup(initial, found);
}

proof fn lemma_keep_in_identity(s: Seq<Seq<char>>, keep: Seq<Seq<char>>)
    requires
        forall|t: Seq<char>| s.contains(t) ==> keep.contains(t),
    ensures
        keep_in(s, keep) == s,
    decreases s.len(),
{
    if s.len() > 0 {
        assert forall|t: Seq<char>| s.drop_last().contains(t) implies keep.contains(t) by {
            lemma_prefix_contains(s, t);
        }
        lemma_keep_in_identity(s.drop_last(), keep);
        assert(s.contains(s.last()));
        assert(keep_in(s, keep) =~= s);
    }
}

proof fn lemma_add_new_noop(d: Seq<Seq<char>>, initial: Seq<Seq<char>>, found: Seq<Seq<char>>)
    requires
        forall|t: Seq<char>|
            (found.contains(t) && !initial.contains(t)) ==> d.contains(t),
    ensures
        add_new(d, initial, found) == d,
    decreases found.len(),
{
    if found.len() > 0 {
        assert forall|t: Seq<char>|
            (found.drop_last().contains(t) && !initial.contains(t)) implies d.contains(t) by {
            lemma_prefix_contains(found, t);
        }
        lemma_add_new_noop(d, initial, found.drop_last());
        assert(found.contains(found.last()));
    }
}

proof fn lemma_add_new_empty_is_dedup(initial: Seq<Seq<char>>, found: Seq<Seq<char>>)
    ensures
        add_new(Seq::<Seq<char>>::empty(), initial, found) == drop_in(
            dedup_first(found),
            initial,
        ),
    decreases found.len(),
{
    if found.len() == 0 {
        assert(add_new(Seq::<Seq<char>>::empty(), initial, found) =~= drop_in(
            dedup_first(found),
            initial,
        ));
    } else {
        lemma_add_new_empty_is_dedup(initial, found.drop_last());
        let front_dd = dedup_first(found.drop_last());
        let l = found.last();
        lemma_add_new_contains(Seq::<Seq<char>>::empty(), initial, found.drop_last(), l);
        lemma_drop_in_contains(front_dd, initial, l);
        lemma_dedup_first_contains(found.drop_last(), l);
        if front_dd.contains(l) {
            assert(dedup_first(found) == front_dd);
        } else {
            assert(dedup_first(found) == front_dd.push(l));
            assert(front_dd.push(l).drop_last() =~= front_dd);
            if initial.contains(l) {
                assert(drop_in(front_dd.push(l), initial) == drop_in(front_dd, initial));
            } else {
                assert(drop_in(front_dd.push(l), initial) == drop_in(front_dd, initial).push(
                    l));
            }
        }
    }
}

} // verus!
