//! The remote-write splitter.
//!
//! One incoming `WriteRequest` is split into per-tenant requests: every
//! time series is routed to the tenants named by its labels (optionally
//! filtered through an allow-list) and to the replication targets, and
//! every metadata record is fanned out to each per-tenant request.

use vstd::prelude::*;

use crate::model::Label;
use crate::model::LabelV;
use crate::model::MetricMetadata;
use crate::model::MetricMetadataV;
use crate::model::TimeSeries;
use crate::model::TimeSeriesV;
use crate::model::WriteRequest;
use crate::model::WriteRequestV;
use crate::strseq::dedup_first;
use crate::strseq::keep_in;
use crate::strseq::views_of;

verus! {

/// The per-tenant map: association list from tenant id to request.
pub type TenantMapV = Seq<(Seq<char>, WriteRequestV)>;

/// Distinct keys.
pub open spec fn tenant_map_wf(m: TenantMapV) -> bool {
    forall|i: int, j: int| 0 <= i < j < m.len() ==> m[i].0 != m[j].0
}

/// The index of the first entry with key `k`, or `-1` when there is none.
pub open spec fn key_idx(m: TenantMapV, k: Seq<char>) -> int
    decreases m.len(),
{
    if m.len() == 0 {
        -1
    } else if m[0].0 == k {
        0
    } else {
        let r = key_idx(m.drop_first(), k);
        if r < 0 {
            -1
        } else {
            r + 1
        }
    }
}

/// Whether the map has an entry with key `k`.
pub open spec fn has_key(m: TenantMapV, k: Seq<char>) -> bool {
    key_idx(m, k) >= 0
}

pub proof fn lemma_key_idx_bounds(m: TenantMapV, k: Seq<char>)
    ensures
        -1 <= key_idx(m, k) < m.len(),
        key_idx(m, k) >= 0 ==> m[key_idx(m, k)].0 == k,
        forall|j: int| 0 <= j < m.len() && m[j].0 == k ==> key_idx(m, k) >= 0,
    decreases m.len(),
{
    if m.len() > 0 && m[0].0 != k {
        lemma_key_idx_bounds(m.drop_first(), k);
        assert forall|j: int| 0 <= j < m.len() && m[j].0 == k implies key_idx(m, k) >= 0 by {
            assert(m.drop_first()[j - 1] == m[j]);
        }
    }
}

/// The first matching index is found by a left-to-right scan.
pub proof fn lemma_key_idx_at(m: TenantMapV, k: Seq<char>, i: int)
    requires
        0 <= i < m.len(),
        m[i].0 == k,
        forall|j: int| 0 <= j < i ==> m[j].0 != k,
    ensures
        key_idx(m, k) == i,
    decreases m.len(),
{
    if m[0].0 != k {
        assert(forall|j: int|
            0 <= j < m.len() - 1 ==> m.drop_first()[j] == m[j + 1]);
        lemma_key_idx_at(m.drop_first(), k, i - 1);
    }
}

pub proof fn lemma_key_idx_none(m: TenantMapV, k: Seq<char>)
    requires
        forall|j: int| 0 <= j < m.len() ==> m[j].0 != k,
    ensures
        key_idx(m, k) == -1,
    decreases m.len(),
{
    if m.len() > 0 {
        assert(forall|j: int|
            0 <= j < m.len() - 1 ==> m.drop_first()[j] == m[j + 1]);
        lemma_key_idx_none(m.drop_first(), k);
    }
}

/// Routing one series to one tenant: the series is appended to the
/// tenant's request, which is created empty first when absent.
pub open spec fn spec_append_series(m: TenantMapV, t: Seq<char>, ts: TimeSeriesV) -> TenantMapV {
    let i = key_idx(m, t);
    if i >= 0 {
        m.update(
            i,
            (
                t,
                WriteRequestV {
                    timeseries: m[i].1.timeseries.push(ts),
                    metadata: m[i].1.metadata,
                },
            ),
        )
    } else {
        m.push(
            (
                t,
                WriteRequestV {
                    timeseries: seq![ts],
                    metadata: Seq::empty(),
                },
            ),
        )
    }
}

/// Routing one series to a list of tenants, first to last.
pub open spec fn spec_route_series(m: TenantMapV, tenants: Seq<Seq<char>>, ts: TimeSeriesV)
    -> TenantMapV
    decreases tenants.len(),
{
    if tenants.len() == 0 {
        m
    } else {
        spec_append_series(
            spec_route_series(m, tenants.drop_last(), ts),
            tenants.last(),
            ts,
        )
    }
}

/// The tenant values contributed by the labels of one series: the value of
/// every label whose name is one of the configured tenant labels.
pub open spec fn label_tenant_values(labels: Seq<LabelV>, tenant_labels: Seq<Seq<char>>)
    -> Seq<Seq<char>>
    decreases labels.len(),
{
    if labels.len() == 0 {
        Seq::empty()
    } else {
        let front = label_tenant_values(labels.drop_last(), tenant_labels);
        if tenant_labels.contains(labels.last().name) {
            front.push(labels.last().value)
        } else {
            front
        }
    }
}

/// How many entries of `tenant_labels` equal `name`.
pub open spec fn count_matches(tenant_labels: Seq<Seq<char>>, name: Seq<char>) -> nat
    decreases tenant_labels.len(),
{
    if tenant_labels.len() == 0 {
        0
    } else {
        count_matches(tenant_labels.drop_last(), name) + (
        if tenant_labels.last() == name {
            1nat
        } else {
            0nat
        })
    }
}

/// How many `(label, tenant label)` pairs match over one series.
pub open spec fn matching_pairs(labels: Seq<LabelV>, tenant_labels: Seq<Seq<char>>) -> nat
    decreases labels.len(),
{
    if labels.len() == 0 {
        0
    } else {
        matching_pairs(labels.drop_last(), tenant_labels) + count_matches(
            tenant_labels,
            labels.last().name,
        )
    }
}

pub proof fn lemma_count_matches_bound(tenant_labels: Seq<Seq<char>>, name: Seq<char>)
    ensures
        count_matches(tenant_labels, name) <= tenant_labels.len(),
    decreases tenant_labels.len(),
{
    if tenant_labels.len() > 0 {
        lemma_count_matches_bound(tenant_labels.drop_last(), name);
    }
}

pub proof fn lemma_matching_pairs_bound(labels: Seq<LabelV>, tenant_labels: Seq<Seq<char>>)
    ensures
        matching_pairs(labels, tenant_labels) <= labels.len() * tenant_labels.len(),
    decreases labels.len(),
{
    if labels.len() > 0 {
        lemma_matching_pairs_bound(labels.drop_last(), tenant_labels);
        lemma_count_matches_bound(tenant_labels, labels.last().name);
        assert(labels.len() * tenant_labels.len() == (labels.len() - 1) * tenant_labels.len()
            + tenant_labels.len()) by (nonlinear_arith);
    }
}

/// The target tenant set of one series, in order and without duplicates:
/// the replication targets first, then the label-derived tenants, filtered
/// through the allow-list when it is enabled.
pub open spec fn series_target_tenants(
    ts: TimeSeriesV,
    tenant_labels: Seq<Seq<char>>,
    allow_list: Seq<Seq<char>>,
    allow_list_enabled: bool,
    replicate_to: Seq<Seq<char>>,
) -> Seq<Seq<char>> {
    let from_labels = label_tenant_values(ts.labels, tenant_labels);
    let routed = if allow_list_enabled {
        keep_in(from_labels, allow_list)
    } else {
        from_labels
    };
    dedup_first(replicate_to + routed)
}

/// The per-tenant map under construction while one request is split.
#[derive(Debug, PartialEq, Eq)]
pub struct TenantWrites {
    pub entries: Vec<(String, WriteRequest)>,
}

impl View for TenantWrites {
    type V = TenantMapV;

    open spec fn view(&self) -> TenantMapV {
        self.entries@.map_values(|e: (String, WriteRequest)| (e.0@, e.1@))
    }
}

impl TenantWrites {
    pub open spec fn wf(self) -> bool {
        tenant_map_wf(self@)
    }

    /// The empty map.
    pub fn new() -> (r: TenantWrites)
        ensures
            r.wf(),
            r@ == Seq::<(Seq<char>, WriteRequestV)>::empty(),
    {
        let r = TenantWrites { entries: Vec::new() };
        proof {
            assert(r@ =~= Seq::<(Seq<char>, WriteRequestV)>::empty());
        }
        r
    }

    /// How many tenants hold a request so far.
    pub fn len(&self) -> (r: usize)
        ensures
            r == self@.len(),
    {
        self.entries.len()
    }

    /// Route one series to one tenant.
    #[verifier::loop_isolation(false)]
    pub fn append_series(&mut self, tenant_id: &String, time_series: &TimeSeries)
        requires
            old(self).wf(),
        ensures
            final(self).wf(),
            final(self)@ == spec_append_series(old(self)@, tenant_id@, time_series@),
    {
        let ghost m = self@;
        let mut i: usize = 0;
        while i < self.entries.len()
            invariant
                i <= m.len(),
                self@ == m,
                self.wf(),
                forall|j: int| 0 <= j < i ==> m[j].0 != tenant_id@,
            decreases m.len() - i,
        {
            if tenant_id.eq(&self.entries[i].0) {
                proof {
                    assert(m[i as int].0 == tenant_id@);
                    lemma_key_idx_at(m, tenant_id@, i as int);
                }
                let ghost old_entries = self.entries@;
                let mut entry = self.entries.remove(i);
                proof {
                    old_entries.remove_ensures(i as int);
                }
                entry.1.timeseries.push(time_series.duplicate());
                let ghost new_entry = entry;
                self.entries.insert(i, entry);
                proof {
                    old_entries.remove(i as int).insert_ensures(i as int, new_entry);
                    assert(self.entries@ =~= old_entries.update(i as int, new_entry));
                    assert(self@ =~= spec_append_series(m, tenant_id@, time_series@)) by {
                        assert(self@.len() == m.len());
                        assert(forall|j: int|
                            0 <= j < m.len() && j != i ==> self.entries@[j]
                                == old_entries[j]);
                        assert(self@[i as int].0 == tenant_id@);
                        assert(self@[i as int].1.timeseries =~= m[i as int].1.timeseries.push(
                            time_series@));
                        assert(self@[i as int].1.metadata =~= m[i as int].1.metadata);
                    }
                }
                return;
            }
            i += 1;
        }
        proof {
            lemma_key_idx_none(m, tenant_id@);
        }
        let mut request = WriteRequest::new();
        request.timeseries.push(time_series.duplicate());
        self.entries.push((tenant_id.clone(), request));
        proof {
            assert(self@ =~= spec_append_series(m, tenant_id@, time_series@)) by {
                assert(self@.len() == m.len() + 1);
                assert(forall|j: int| 0 <= j < m.len() ==> self@[j] == m[j]);
                assert(self@[m.len() as int].0 == tenant_id@);
                assert(self@[m.len() as int].1.timeseries =~= seq![time_series@]);
                assert(self@[m.len() as int].1.metadata =~= Seq::<MetricMetadataV>::empty());
            }
            assert(tenant_map_wf(self@));
        }
    }
}

/// Processes a single time series: routes it into the per-tenant map and
/// returns how many tenant labels matched and how many label comparisons
/// were made.
#[verifier::loop_isolation(false)]
pub fn process_time_serie(
    time_series: &TimeSeries,
    tenant_labels: &Vec<String>,
    allow_listed_tenants: &Vec<String>,
    does_allow_list: bool,
    replicate_to: &Vec<String>,
    tenant_data: &mut TenantWrites,
) -> (counts: (u16, u16))
    requires
        old(tenant_data).wf(),
        time_series@.labels.len() <= u16::MAX,
        time_series@.labels.len() * tenant_labels@.len() <= u16::MAX,
    ensures
        final(tenant_data).wf(),
        final(tenant_data)@ == spec_route_series(
            old(tenant_data)@,
            series_target_tenants(
                time_series@,
                views_of(tenant_labels@),
                views_of(allow_listed_tenants@),
                does_allow_list,
                views_of(replicate_to@),
            ),
            time_series@,
        ),
        counts.0 as nat == matching_pairs(time_series@.labels, views_of(tenant_labels@)),
        counts.1 as nat == time_series@.labels.len(),
{
    let ghost tls = views_of(tenant_labels@);
    let ghost lbls = time_series@.labels;

    // Scan the labels once for tenant-identifying values.
    let mut label_tenants: Vec<String> = Vec::new();
    let mut tenants_detected: u16 = 0;
    let mut labels_detected: u16 = 0;
    proof {
        assert(views_of(label_tenants@) =~= label_tenant_values(lbls.take(0), tls));
    }
    let mut i: usize = 0;
    while i < time_series.labels.len()
        invariant
            i <= lbls.len(),
            views_of(label_tenants@) == label_tenant_values(lbls.take(i as int), tls),
            tenants_detected as nat == matching_pairs(lbls.take(i as int), tls),
            tenants_detected as nat <= i * tls.len(),
            labels_detected == i,
        decreases lbls.len() - i,
    {
        let label = &time_series.labels[i];
        proof {
            assert(lbls[i as int] == label@);
            assert((i + 1) * tls.len() == i * tls.len() + tls.len()) by (nonlinear_arith);
            assert((i + 1) * tls.len() <= lbls.len() * tls.len()) by (nonlinear_arith)
                requires
                    i + 1 <= lbls.len(),
            ;
        }
        let mut found = false;
        let mut match_count: u16 = 0;
        let mut j: usize = 0;
        while j < tenant_labels.len()
            invariant
                j <= tls.len(),
                match_count as nat == count_matches(tls.take(j as int), label@.name),
                found == tls.take(j as int).contains(label@.name),
                match_count <= j,
                labels_detected == i,
                i < lbls.len(),
                lbls[i as int] == label@,
            decreases tls.len() - j,
        {
            proof {
                assert(tls.take(j + 1).drop_last() =~= tls.take(j as int));
                assert(tls.take(j + 1).last() == tenant_labels@[j as int]@);
                crate::strseq::lemma_prefix_contains(tls.take(j + 1), label@.name);
            }
            if tenant_labels[j].eq(&label.name) {
                match_count += 1;
                found = true;
            }
            j += 1;
        }
        proof {
            assert(tls.take(tls.len() as int) =~= tls);
            assert(lbls.take(i + 1).drop_last() =~= lbls.take(i as int));
            assert(lbls.take(i + 1).last() == label@);
        }
        proof {
            lemma_count_matches_bound(tls, label@.name);
        }
        labels_detected += 1;
        tenants_detected += match_count;
        if found {
            let ghost before = label_tenants@;
            label_tenants.push(label.value.clone());
            proof {
                assert(views_of(label_tenants@) =~= views_of(before).push(label@.value));
            }
        }
        i += 1;
    }
    proof {
        assert(lbls.take(lbls.len() as int) =~= lbls);
    }
    let ghost from_labels = label_tenant_values(lbls, tls);
    let ghost allow = views_of(allow_listed_tenants@);
    let ghost rep = views_of(replicate_to@);

    // Build the target tenant set: replication targets first, then the
    // label-derived tenants, deduplicated in order.
    let mut targets: Vec<String> = Vec::new();
    proof {
        assert(views_of(targets@) =~= dedup_first((rep + (
        if does_allow_list {
            keep_in(from_labels, allow)
        } else {
            from_labels
        })).take(0)));
    }
    let ghost routed = if does_allow_list {
        keep_in(from_labels, allow)
    } else {
        from_labels
    };
    let ghost whole = rep + routed;
    let mut r: usize = 0;
    while r < replicate_to.len()
        invariant
            r <= rep.len(),
            views_of(targets@) == dedup_first(whole.take(r as int)),
        decreases rep.len() - r,
    {
        let tenant_id = &replicate_to[r];
        proof {
            assert(whole.take(r + 1).drop_last() =~= whole.take(r as int));
            assert(whole.take(r + 1).last() == tenant_id@);
        }
        if !crate::strseq::contains_string(&targets, tenant_id) {
            let ghost before = targets@;
            targets.push(tenant_id.clone());
            proof {
                assert(views_of(targets@) =~= views_of(before).push(tenant_id@));
            }
        }
        r += 1;
    }
    proof {
        assert(whole.take(rep.len() as int) =~= rep);
    }
    proof {
        assert(whole.take(rep.len() as int) =~= rep + (
        if does_allow_list {
            keep_in(from_labels.take(0), allow)
        } else {
            from_labels.take(0)
        }));
    }
    let mut q: usize = 0;
    while q < label_tenants.len()
        invariant
            q <= from_labels.len(),
            from_labels == views_of(label_tenants@),
            views_of(targets@) == dedup_first(rep + (
            if does_allow_list {
                keep_in(from_labels.take(q as int), allow)
            } else {
                from_labels.take(q as int)
            })),
        decreases from_labels.len() - q,
    {
        let tenant_id = &label_tenants[q];
        let ghost inner_old = if does_allow_list {
            keep_in(from_labels.take(q as int), allow)
        } else {
            from_labels.take(q as int)
        };
        let ghost inner_new = if does_allow_list {
            keep_in(from_labels.take(q + 1), allow)
        } else {
            from_labels.take(q + 1)
        };
        proof {
            assert(from_labels.take(q + 1).drop_last() =~= from_labels.take(q as int));
            assert(from_labels.take(q + 1).last() == tenant_id@);
            assert(from_labels.take(q + 1) =~= from_labels.take(q as int).push(tenant_id@));
            if does_allow_list && !allow.contains(tenant_id@) {
                assert(inner_new == inner_old);
            } else {
                assert(inner_new == inner_old.push(tenant_id@));
                assert((rep + inner_old.push(tenant_id@)).drop_last() =~= rep + inner_old);
                assert((rep + inner_old.push(tenant_id@)).last() == tenant_id@);
            }
        }
        let eligible = if does_allow_list {
            crate::strseq::contains_string(allow_listed_tenants, tenant_id)
        } else {
            true
        };
        if eligible {
            if !crate::strseq::contains_string(&targets, tenant_id) {
                let ghost before = targets@;
                targets.push(tenant_id.clone());
                proof {
                    assert(views_of(targets@) =~= views_of(before).push(tenant_id@));
                }
            }
        }
        proof {
            assert(views_of(targets@) == dedup_first(rep + inner_new));
        }
        q += 1;
    }
    proof {
        assert(from_labels.take(from_labels.len() as int) =~= from_labels);
        if does_allow_list {
            assert(keep_in(from_labels.take(from_labels.len() as int), allow) == keep_in(
                from_labels,
                allow,
            ));
        }
        assert(views_of(targets@) == dedup_first(whole));
    }

    // Route the series to every target tenant.
    let ghost goal = dedup_first(whole);
    let mut k: usize = 0;
    while k < targets.len()
        invariant
            k <= goal.len(),
            goal == views_of(targets@),
            tenant_data.wf(),
            tenant_data@ == spec_route_series(old(tenant_data)@, goal.take(k as int),
                time_series@),
        decreases goal.len() - k,
    {
        proof {
            assert(goal.take(k + 1).drop_last() =~= goal.take(k as int));
            assert(goal.take(k + 1).last() == targets@[k as int]@);
        }
        let tenant_id = &targets[k];
        tenant_data.append_series(tenant_id, time_series);
        k += 1;
    }
    proof {
        assert(goal.take(goal.len() as int) =~= goal);
    }
    (tenants_detected, labels_detected)
}

/// The per-tenant map after every series of a request is routed, in order.
pub open spec fn spec_split_series(
    m: TenantMapV,
    series: Seq<TimeSeriesV>,
    tenant_labels: Seq<Seq<char>>,
    allow_list: Seq<Seq<char>>,
    allow_list_enabled: bool,
    replicate_to: Seq<Seq<char>>,
) -> TenantMapV
    decreases series.len(),
{
    if series.len() == 0 {
        m
    } else {
        spec_route_series(
            spec_split_series(
                m,
                series.drop_last(),
                tenant_labels,
                allow_list,
                allow_list_enabled,
                replicate_to,
            ),
            series_target_tenants(
                series.last(),
                tenant_labels,
                allow_list,
                allow_list_enabled,
                replicate_to,
            ),
            series.last(),
        )
    }
}

/// The matching `(label, tenant label)` pairs summed over a request.
pub open spec fn total_matching_pairs(series: Seq<TimeSeriesV>, tenant_labels: Seq<Seq<char>>)
    -> nat
    decreases series.len(),
{
    if series.len() == 0 {
        0
    } else {
        total_matching_pairs(series.drop_last(), tenant_labels) + matching_pairs(
            series.last().labels,
            tenant_labels,
        )
    }
}

/// The labels summed over a request.
pub open spec fn total_labels(series: Seq<TimeSeriesV>) -> nat
    decreases series.len(),
{
    if series.len() == 0 {
        0
    } else {
        total_labels(series.drop_last()) + series.last().labels.len()
    }
}

/// Every per-tenant request receives a copy of the whole metadata list.
pub open spec fn spec_add_metadata(m: TenantMapV, metadata: Seq<MetricMetadataV>) -> TenantMapV {
    m.map_values(
        |e: (Seq<char>, WriteRequestV)|
            (
                e.0,
                WriteRequestV { timeseries: e.1.timeseries, metadata: e.1.metadata + metadata },
            ),
    )
}

/// What splitting one request yields: the series routed tenant by tenant,
/// then the metadata fanned out to every per-tenant request.
pub open spec fn spec_split_request(
    request: WriteRequestV,
    tenant_labels: Seq<Seq<char>>,
    allow_list: Seq<Seq<char>>,
    allow_list_enabled: bool,
    replicate_to: Seq<Seq<char>>,
) -> TenantMapV {
    spec_add_metadata(
        spec_split_series(
            Seq::empty(),
            request.timeseries,
            tenant_labels,
            allow_list,
            allow_list_enabled,
            replicate_to,
        ),
        request.metadata,
    )
}

/// Splits one decoded request into per-tenant requests and returns the map
/// together with the two counters: tenant labels matched, labels scanned.
#[verifier::loop_isolation(false)]
pub fn split_write_request(
    write_request: &WriteRequest,
    tenant_labels: &Vec<String>,
    allow_listed_tenants: &Vec<String>,
    does_allow_list: bool,
    replicate_to: &Vec<String>,
) -> (r: (TenantWrites, u64, u64))
    requires
        forall|i: int|
            0 <= i < write_request@.timeseries.len() ==> (#[trigger] write_request@.timeseries[i]).labels.len()
                <= u16::MAX,
        forall|i: int|
            0 <= i < write_request@.timeseries.len() ==> (#[trigger] write_request@.timeseries[i]).labels.len()
                * tenant_labels@.len() <= u16::MAX,
        write_request@.timeseries.len() <= 0xffff_ffff,
    ensures
        r.0.wf(),
        r.0@ == spec_split_request(
            write_request@,
            views_of(tenant_labels@),
            views_of(allow_listed_tenants@),
            does_allow_list,
            views_of(replicate_to@),
        ),
        r.1 as nat == total_matching_pairs(write_request@.timeseries, views_of(tenant_labels@)),
        r.2 as nat == total_labels(write_request@.timeseries),
{
    let ghost series = write_request@.timeseries;
    let ghost tls = views_of(tenant_labels@);
    let ghost allow = views_of(allow_listed_tenants@);
    let ghost rep = views_of(replicate_to@);
    let ghost md = write_request@.metadata;

    let mut tenant_data = TenantWrites::new();
    let mut tenants_total: u64 = 0;
    let mut labels_total: u64 = 0;
    proof {
        assert(tls.len() == tenant_labels@.len());
    }
    let mut i: usize = 0;
    while i < write_request.timeseries.len()
        invariant
            i <= series.len(),
            tenant_data.wf(),
            tenant_data@ == spec_split_series(
                Seq::empty(),
                series.take(i as int),
                tls,
                allow,
                does_allow_list,
                rep,
            ),
            tenants_total as nat == total_matching_pairs(series.take(i as int), tls),
            labels_total as nat == total_labels(series.take(i as int)),
            tenants_total as nat <= i * 0x10000,
            labels_total as nat <= i * 0x10000,
        decreases series.len() - i,
    {
        let time_series = &write_request.timeseries[i];
        proof {
            assert(series[i as int] == time_series@);
            assert(series.take(i + 1).drop_last() =~= series.take(i as int));
            assert(series.take(i + 1).last() == time_series@);
            assert((i + 1) * 0x10000 == i * 0x10000 + 0x10000) by (nonlinear_arith);
            assert((i + 1) * 0x10000 <= 0x1_0000_0000 * 0x10000) by (nonlinear_arith)
                requires
                    i + 1 <= 0x1_0000_0000,
            ;
            lemma_matching_pairs_bound(time_series@.labels, tls);
        }
        let counts = process_time_serie(
            time_series,
            tenant_labels,
            allow_listed_tenants,
            does_allow_list,
            replicate_to,
            &mut tenant_data,
        );
        tenants_total = tenants_total + counts.0 as u64;
        labels_total = labels_total + counts.1 as u64;
        i += 1;
    }
    proof {
        assert(series.take(series.len() as int) =~= series);
    }
    let ghost after_series = tenant_data@;

    // Fan the metadata out to every per-tenant request.
    let mut e: usize = 0;
    while e < tenant_data.entries.len()
        invariant
            e <= after_series.len(),
            tenant_data@.len() == after_series.len(),
            forall|j: int|
                0 <= j < e ==> tenant_data@[j] == (
                after_series[j].0,
                WriteRequestV {
                    timeseries: after_series[j].1.timeseries,
                    metadata: after_series[j].1.metadata + md,
                },
            ),
            forall|j: int|
                e <= j < after_series.len() ==> tenant_data@[j] == after_series[j],
        decreases after_series.len() - e,
    {
        let ghost before_map = tenant_data@;
        let ghost before_entries = tenant_data.entries@;
        let mut entry = tenant_data.entries.remove(e);
        proof {
            before_entries.remove_ensures(e as int);
        }
        let ghost entry_md0 = entry.1@.metadata;
        proof {
            assert(entry.1@.metadata =~= entry_md0 + md.take(0));
        }
        let mut mi: usize = 0;
        while mi < write_request.metadata.len()
            invariant
                mi <= md.len(),
                entry.0@ == after_series[e as int].0,
                entry.1@.timeseries == after_series[e as int].1.timeseries,
                entry.1@.metadata == entry_md0 + md.take(mi as int),
                entry_md0 == after_series[e as int].1.metadata,
            decreases md.len() - mi,
        {
            let ghost before_md = entry.1@.metadata;
            entry.1.metadata.push(write_request.metadata[mi].duplicate());
            proof {
                assert(md[mi as int] == write_request.metadata@[mi as int]@);
                assert(entry.1@.metadata =~= before_md.push(md[mi as int]));
                assert(entry_md0 + md.take(mi + 1) =~= (entry_md0 + md.take(mi as int)).push(
                    md[mi as int]));
            }
            mi += 1;
        }
        proof {
            assert(md.take(md.len() as int) =~= md);
        }
        let ghost new_entry = entry;
        tenant_data.entries.insert(e, entry);
        proof {
            before_entries.remove(e as int).insert_ensures(e as int, new_entry);
            assert(tenant_data.entries@ =~= before_entries.update(e as int, new_entry));
            assert(tenant_data@ =~= before_map.update(
                e as int,
                (new_entry.0@, new_entry.1@),
            ));
            assert(new_entry.1@ == WriteRequestV {
                timeseries: after_series[e as int].1.timeseries,
                metadata: after_series[e as int].1.metadata + md,
            });
        }
        e += 1;
    }
    proof {
        assert(tenant_data@ =~= spec_add_metadata(after_series, md));
        assert(tenant_map_wf(tenant_data@));
    }
    (tenant_data, tenants_total, labels_total)
}

} // verus!
