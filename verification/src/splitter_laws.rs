//! Laws of the remote-write splitter.
//!
//! These proof functions state what splitting guarantees for every request
//! and configuration: each tenant's request holds exactly the series routed
//! to it in input order, every per-tenant request carries the whole metadata
//! list, and — with the allow-list enabled — only replication targets and
//! allow-listed tenants appear.

use vstd::prelude::*;

use crate::model::MetricMetadataV;
use crate::model::TimeSeriesV;
use crate::model::WriteRequestV;
use crate::splitter::TenantMapV;
use crate::splitter::has_key;
use crate::splitter::key_idx;
use crate::splitter::lemma_key_idx_bounds;
use crate::splitter::series_target_tenants;
use crate::splitter::spec_add_metadata;
use crate::splitter::spec_append_series;
use crate::splitter::spec_route_series;
use crate::splitter::spec_split_request;
use crate::splitter::spec_split_series;
use crate::strseq::keep_in;
use crate::strseq::lemma_concat_contains;
use crate::strseq::lemma_dedup_first_contains;
use crate::strseq::lemma_dedup_first_no_duplicates;
use crate::strseq::lemma_keep_in_contains;
use crate::strseq::lemma_prefix_contains;

verus! {

/// The series of a request that are routed to tenant `t`, in input order.
pub open spec fn routed_to(
    series: Seq<TimeSeriesV>,
    t: Seq<char>,
    tenant_labels: Seq<Seq<char>>,
    allow_list: Seq<Seq<char>>,
    allow_list_enabled: bool,
    replicate_to: Seq<Seq<char>>,
) -> Seq<TimeSeriesV>
    decreases series.len(),
{
    if series.len() == 0 {
        Seq::empty()
    } else {
        routed_to(
            series.drop_last(),
            t,
            tenant_labels,
            allow_list,
            allow_list_enabled,
            replicate_to,
        ) + (
        if series_target_tenants(
            series.last(),
            tenant_labels,
            allow_list,
            allow_list_enabled,
            replicate_to,
        ).contains(t) {
            seq![series.last()]
        } else {
            Seq::empty()
        })
    }
}

proof fn lemma_key_idx_same_keys(m1: TenantMapV, m2: TenantMapV, t: Seq<char>)
    requires
        m1.len() == m2.len(),
        forall|j: int| 0 <= j < m1.len() ==> m1[j].0 == m2[j].0,
    ensures
        key_idx(m1, t) == key_idx(m2, t),
    decreases m1.len(),
{
    if m1.len() > 0 {
        assert(m1[0].0 == m2[0].0);
        if m1[0].0 != t {
            assert forall|j: int|
                0 <= j < m1.drop_first().len() implies (#[trigger] m1.drop_first()[j]).0 == (
            m2.drop_first()[j]).0 by {
                assert(m1.drop_first()[j] == m1[j + 1]);
                assert(m2.drop_first()[j] == m2[j + 1]);
            }
            lemma_key_idx_same_keys(m1.drop_first(), m2.drop_first(), t);
        }
    }
}

proof fn lemma_key_idx_push(m: TenantMapV, e: (Seq<char>, WriteRequestV), t: Seq<char>)
    ensures
        key_idx(m.push(e), t) == (
        if has_key(m, t) {
            key_idx(m, t)
        } else if e.0 == t {
            m.len() as int
        } else {
            -1
        }),
    decreases m.len(),
{
    lemma_key_idx_bounds(m, t);
    if m.len() == 0 {
        assert(m.push(e)[0] == e);
        assert(key_idx(m, t) == -1);
        if e.0 == t {
            assert(key_idx(m.push(e), t) == 0);
        } else {
            assert(m.push(e).drop_first() =~= Seq::<(Seq<char>, WriteRequestV)>::empty());
            assert(key_idx(m.push(e).drop_first(), t) == -1);
            assert(key_idx(m.push(e), t) == -1);
        }
    } else {
        assert(m.push(e)[0] == m[0]);
        if m[0].0 == t {
            assert(key_idx(m, t) == 0);
            assert(key_idx(m.push(e), t) == 0);
        } else {
            assert(m.push(e).drop_first() =~= m.drop_first().push(e));
            lemma_key_idx_push(m.drop_first(), e, t);
            lemma_key_idx_bounds(m.drop_first(), t);
            assert(key_idx(m.push(e).drop_first(), t) == key_idx(m.drop_first().push(e), t));
            if has_key(m.drop_first(), t) {
                assert(key_idx(m.push(e), t) == key_idx(m.drop_first(), t) + 1);
                assert(key_idx(m, t) == key_idx(m.drop_first(), t) + 1);
            } else if e.0 == t {
                assert(key_idx(m.push(e).drop_first(), t) == m.drop_first().len() as int);
                assert(key_idx(m.push(e), t) == m.len() as int);
                assert(key_idx(m, t) == -1);
            } else {
                assert(key_idx(m.push(e), t) == -1);
                assert(key_idx(m, t) == -1);
            }
        }
    }
}

/// The effect of routing one series to one tenant, seen from any tenant `t`.
proof fn lemma_append_series_effect(m: TenantMapV, tgt: Seq<char>, ts: TimeSeriesV, t: Seq<char>)
    ensures
        ({
            let res = spec_append_series(m, tgt, ts);
            &&& (t == tgt && has_key(m, t)) ==> {
                &&& res.len() == m.len()
                &&& key_idx(res, t) == key_idx(m, t)
                &&& res[key_idx(m, t)].1.timeseries == m[key_idx(m, t)].1.timeseries.push(ts)
                &&& res[key_idx(m, t)].1.metadata == m[key_idx(m, t)].1.metadata
            }
            &&& (t == tgt && !has_key(m, t)) ==> {
                &&& key_idx(res, t) == m.len() as int
                &&& res[m.len() as int].1.timeseries == seq![ts]
                &&& res[m.len() as int].1.metadata == Seq::<MetricMetadataV>::empty()
            }
            &&& t != tgt ==> {
                &&& key_idx(res, t) == key_idx(m, t)
                &&& has_key(m, t) ==> res[key_idx(m, t)] == m[key_idx(m, t)]
            }
        }),
{
    lemma_key_idx_bounds(m, tgt);
    lemma_key_idx_bounds(m, t);
    let i = key_idx(m, tgt);
    let res = spec_append_series(m, tgt, ts);
    if i >= 0 {
        lemma_key_idx_same_keys(m, res, t);
        if t != tgt && has_key(m, t) {
            assert(m[key_idx(m, t)].0 == t);
            assert(m[i].0 == tgt);
            assert(key_idx(m, t) != i);
        }
    } else {
        lemma_key_idx_push(
            m,
            (tgt, WriteRequestV { timeseries: seq![ts], metadata: Seq::empty() }),
            t,
        );
    }
}

/// The effect of routing one series to a duplicate-free tenant list.
proof fn lemma_route_series_effect(
    m: TenantMapV,
    tenants: Seq<Seq<char>>,
    ts: TimeSeriesV,
    t: Seq<char>,
)
    requires
        tenants.no_duplicates(),
    ensures
        ({
            let res = spec_route_series(m, tenants, ts);
            &&& (tenants.contains(t) && has_key(m, t)) ==> {
                &&& key_idx(res, t) == key_idx(m, t)
                &&& res[key_idx(m, t)].1.timeseries == m[key_idx(m, t)].1.timeseries.push(ts)
                &&& res[key_idx(m, t)].1.metadata == m[key_idx(m, t)].1.metadata
            }
            &&& (tenants.contains(t) && !has_key(m, t)) ==> {
                &&& has_key(res, t)
                &&& res[key_idx(res, t)].1.timeseries == seq![ts]
                &&& res[key_idx(res, t)].1.metadata == Seq::<MetricMetadataV>::empty()
            }
            &&& !tenants.contains(t) ==> {
                &&& key_idx(res, t) == key_idx(m, t)
                &&& has_key(m, t) ==> res[key_idx(m, t)] == m[key_idx(m, t)]
            }
        }),
    decreases tenants.len(),
{
    if tenants.len() > 0 {
        let front = tenants.drop_last();
        assert(front.no_duplicates());
        lemma_route_series_effect(m, front, ts, t);
        let mid = spec_route_series(m, front, ts);
        lemma_prefix_contains(tenants, t);
        lemma_append_series_effect(mid, tenants.last(), ts, t);
        lemma_key_idx_bounds(m, t);
        lemma_key_idx_bounds(mid, t);
        if tenants.last() == t {
            assert(!front.contains(t)) by {
                if front.contains(t) {
                    let i = choose|i: int| 0 <= i < front.len() && front[i] == t;
                    assert(tenants[i] == tenants[tenants.len() - 1]);
                }
            }
        }
    }
}

/// The effect of splitting a whole series list, seen from any tenant `t`.
proof fn lemma_split_series_routes(
    m: TenantMapV,
    series: Seq<TimeSeriesV>,
    tenant_labels: Seq<Seq<char>>,
    allow_list: Seq<Seq<char>>,
    allow_list_enabled: bool,
    replicate_to: Seq<Seq<char>>,
    t: Seq<char>,
)
    ensures
        ({
            let res = spec_split_series(
                m,
                series,
                tenant_labels,
                allow_list,
                allow_list_enabled,
                replicate_to,
            );
            let routed = routed_to(
                series,
                t,
                tenant_labels,
                allow_list,
                allow_list_enabled,
                replicate_to,
            );
            &&& has_key(m, t) ==> {
                &&& key_idx(res, t) == key_idx(m, t)
                &&& res[key_idx(m, t)].1.timeseries == m[key_idx(m, t)].1.timeseries + routed
                &&& res[key_idx(m, t)].1.metadata == m[key_idx(m, t)].1.metadata
            }
            &&& (!has_key(m, t) && routed.len() > 0) ==> {
                &&& has_key(res, t)
                &&& res[key_idx(res, t)].1.timeseries == routed
                &&& res[key_idx(res, t)].1.metadata == Seq::<MetricMetadataV>::empty()
            }
            &&& (!has_key(m, t) && routed.len() == 0) ==> key_idx(res, t) == key_idx(m, t)
        }),
    decreases series.len(),
{
    let res = spec_split_series(
        m,
        series,
        tenant_labels,
        allow_list,
        allow_list_enabled,
        replicate_to,
    );
    let routed = routed_to(series, t, tenant_labels, allow_list, allow_list_enabled, replicate_to);
    lemma_key_idx_bounds(m, t);
    if series.len() == 0 {
        if has_key(m, t) {
            assert(m[key_idx(m, t)].1.timeseries + routed =~= m[key_idx(m, t)].1.timeseries);
        }
    } else {
        let front = series.drop_last();
        lemma_split_series_routes(
            m,
            front,
            tenant_labels,
            allow_list,
            allow_list_enabled,
            replicate_to,
            t,
        );
        let mid = spec_split_series(
            m,
            front,
            tenant_labels,
            allow_list,
            allow_list_enabled,
            replicate_to,
        );
        let routed_front = routed_to(
            front,
            t,
            tenant_labels,
            allow_list,
            allow_list_enabled,
            replicate_to,
        );
        let tgt = series_target_tenants(
            series.last(),
            tenant_labels,
            allow_list,
            allow_list_enabled,
            replicate_to,
        );
        lemma_dedup_first_no_duplicates(
            replicate_to + (
            if allow_list_enabled {
                keep_in(
                    crate::splitter::label_tenant_values(series.last().labels, tenant_labels),
                    allow_list,
                )
            } else {
                crate::splitter::label_tenant_values(series.last().labels, tenant_labels)
            }),
        );
        lemma_route_series_effect(mid, tgt, series.last(), t);
        lemma_key_idx_bounds(mid, t);
        if tgt.contains(t) {
            assert(routed =~= routed_front + seq![series.last()]);
            if has_key(m, t) {
                assert((m[key_idx(m, t)].1.timeseries + routed_front).push(series.last()) =~= m[
                    key_idx(m, t)].1.timeseries + routed);
            } else if routed_front.len() > 0 {
                assert(routed_front.push(series.last()) =~= routed);
            } else {
                assert(routed_front =~= Seq::<TimeSeriesV>::empty());
                assert(seq![series.last()] =~= routed);
            }
        } else {
            assert(routed =~= routed_front);
        }
    }
}

proof fn lemma_route_series_empty_metadata(m: TenantMapV, tenants: Seq<Seq<char>>, ts: TimeSeriesV)
    requires
        forall|j: int|
            0 <= j < m.len() ==> m[j].1.metadata == Seq::<MetricMetadataV>::empty(),
    ensures
        ({
            let res = spec_route_series(m, tenants, ts);
            forall|j: int|
                0 <= j < res.len() ==> res[j].1.metadata == Seq::<MetricMetadataV>::empty()
        }),
    decreases tenants.len(),
{
    if tenants.len() > 0 {
        lemma_route_series_empty_metadata(m, tenants.drop_last(), ts);
        let mid = spec_route_series(m, tenants.drop_last(), ts);
        lemma_key_idx_bounds(mid, tenants.last());
    }
}

proof fn lemma_split_series_empty_metadata(
    m: TenantMapV,
    series: Seq<TimeSeriesV>,
    tenant_labels: Seq<Seq<char>>,
    allow_list: Seq<Seq<char>>,
    allow_list_enabled: bool,
    replicate_to: Seq<Seq<char>>,
)
    requires
        forall|j: int|
            0 <= j < m.len() ==> m[j].1.metadata == Seq::<MetricMetadataV>::empty(),
    ensures
        ({
            let res = spec_split_series(
                m,
                series,
                tenant_labels,
                allow_list,
                allow_list_enabled,
                replicate_to,
            );
            forall|j: int|
                0 <= j < res.len() ==> res[j].1.metadata == Seq::<MetricMetadataV>::empty()
        }),
    decreases series.len(),
{
    if series.len() > 0 {
        lemma_split_series_empty_metadata(
            m,
            series.drop_last(),
            tenant_labels,
            allow_list,
            allow_list_enabled,
            replicate_to,
        );
        let mid = spec_split_series(
            m,
            series.drop_last(),
            tenant_labels,
            allow_list,
            allow_list_enabled,
            replicate_to,
        );
        lemma_route_series_empty_metadata(
            mid,
            series_target_tenants(
                series.last(),
                tenant_labels,
                allow_list,
                allow_list_enabled,
                replicate_to,
            ),
            series.last(),
        );
    }
}

proof fn lemma_route_series_keys(m: TenantMapV, tenants: Seq<Seq<char>>, ts: TimeSeriesV)
    ensures
        ({
            let res = spec_route_series(m, tenants, ts);
            forall|j: int|
                0 <= j < res.len() ==> has_key(m, #[trigger] res[j].0) || tenants.contains(
                    res[j].0)
        }),
    decreases tenants.len(),
{
    let res = spec_route_series(m, tenants, ts);
    if tenants.len() == 0 {
        assert forall|j: int| 0 <= j < res.len() implies has_key(m, #[trigger] res[j].0)
            || tenants.contains(res[j].0) by {
            lemma_key_idx_bounds(m, res[j].0);
        }
    } else {
        lemma_route_series_keys(m, tenants.drop_last(), ts);
        let mid = spec_route_series(m, tenants.drop_last(), ts);
        lemma_key_idx_bounds(mid, tenants.last());
        assert forall|j: int| 0 <= j < res.len() implies has_key(m, #[trigger] res[j].0)
            || tenants.contains(res[j].0) by {
            lemma_prefix_contains(tenants, res[j].0);
            if j < mid.len() {
                assert(res[j].0 == mid[j].0);
            } else {
                assert(res[j].0 == tenants.last());
            }
        }
    }
}

proof fn lemma_split_series_keys(
    m: TenantMapV,
    series: Seq<TimeSeriesV>,
    tenant_labels: Seq<Seq<char>>,
    allow_list: Seq<Seq<char>>,
    allow_list_enabled: bool,
    replicate_to: Seq<Seq<char>>,
)
    ensures
        ({
            let res = spec_split_series(
                m,
                series,
                tenant_labels,
                allow_list,
                allow_list_enabled,
                replicate_to,
            );
            forall|j: int|
                0 <= j < res.len() ==> has_key(m, #[trigger] res[j].0) || exists|i: int|
                    0 <= i < series.len() && series_target_tenants(
                        series[i],
                        tenant_labels,
                        allow_list,
                        allow_list_enabled,
                        replicate_to,
                    ).contains(res[j].0)
        }),
    decreases series.len(),
{
    let res = spec_split_series(
        m,
        series,
        tenant_labels,
        allow_list,
        allow_list_enabled,
        replicate_to,
    );
    if series.len() == 0 {
        assert forall|j: int| 0 <= j < res.len() implies has_key(m, #[trigger] res[j].0)
            || exists|i: int|
            0 <= i < series.len() && series_target_tenants(
                series[i],
                tenant_labels,
                allow_list,
                allow_list_enabled,
                replicate_to,
            ).contains(res[j].0) by {
            lemma_key_idx_bounds(m, res[j].0);
        }
    } else {
        lemma_split_series_keys(
            m,
            series.drop_last(),
            tenant_labels,
            allow_list,
            allow_list_enabled,
            replicate_to,
        );
        let mid = spec_split_series(
            m,
            series.drop_last(),
            tenant_labels,
            allow_list,
            allow_list_enabled,
            replicate_to,
        );
        let tgt = series_target_tenants(
            series.last(),
            tenant_labels,
            allow_list,
            allow_list_enabled,
            replicate_to,
        );
        lemma_route_series_keys(mid, tgt, series.last());
        assert forall|j: int| 0 <= j < res.len() implies has_key(m, #[trigger] res[j].0)
            || exists|i: int|
            0 <= i < series.len() && series_target_tenants(
                series[i],
                tenant_labels,
                allow_list,
                allow_list_enabled,
                replicate_to,
            ).contains(res[j].0) by {
            if !has_key(m, res[j].0) {
                if tgt.contains(res[j].0) {
                    assert(series[series.len() - 1] == series.last());
                    assert(series_target_tenants(
                        series[series.len() - 1],
                        tenant_labels,
                        allow_list,
                        allow_list_enabled,
                        replicate_to,
                    ).contains(res[j].0));
                } else {
                    if has_key(mid, res[j].0) {
                        let k = key_idx(mid, res[j].0);
                        lemma_key_idx_bounds(mid, res[j].0);
                        assert(mid[k].0 == res[j].0);
                        let i0 = choose|i: int|
                            0 <= i < series.drop_last().len() && series_target_tenants(
                                series.drop_last()[i],
                                tenant_labels,
                                allow_list,
                                allow_list_enabled,
                                replicate_to,
                            ).contains(mid[k].0);
                        assert(series[i0] == series.drop_last()[i0]);
                        assert(series_target_tenants(
                            series[i0],
                            tenant_labels,
                            allow_list,
                            allow_list_enabled,
                            replicate_to,
                        ).contains(res[j].0));
                    }
                }
            }
        }
    }
}

/// Tenant fan-out preservation: in the split of any request, a tenant has
/// an entry exactly when at least one series is routed to it, and its
/// per-tenant request holds exactly those series, in input order.
pub proof fn lemma_tenant_fanout(
    request: WriteRequestV,
    tenant_labels: Seq<Seq<char>>,
    allow_list: Seq<Seq<char>>,
    allow_list_enabled: bool,
    replicate_to: Seq<Seq<char>>,
    t: Seq<char>,
)
    ensures
        ({
            let res = spec_split_request(
                request,
                tenant_labels,
                allow_list,
                allow_list_enabled,
                replicate_to,
            );
            let routed = routed_to(
                request.timeseries,
                t,
                tenant_labels,
                allow_list,
                allow_list_enabled,
                replicate_to,
            );
            &&& has_key(res, t) == (routed.len() > 0)
            &&& has_key(res, t) ==> res[key_idx(res, t)].1.timeseries == routed
        }),
{
    let base = spec_split_series(
        Seq::empty(),
        request.timeseries,
        tenant_labels,
        allow_list,
        allow_list_enabled,
        replicate_to,
    );
    let res = spec_add_metadata(base, request.metadata);
    lemma_split_series_routes(
        Seq::empty(),
        request.timeseries,
        tenant_labels,
        allow_list,
        allow_list_enabled,
        replicate_to,
        t,
    );
    assert(key_idx(Seq::<(Seq<char>, WriteRequestV)>::empty(), t) == -1);
    assert(res.len() == base.len());
    assert(forall|j: int| 0 <= j < base.len() ==> res[j].0 == base[j].0);
    lemma_key_idx_same_keys(base, res, t);
    lemma_key_idx_bounds(base, t);
    if has_key(base, t) {
        assert(res[key_idx(base, t)].1.timeseries == base[key_idx(base, t)].1.timeseries);
    }
}

/// Metadata replication: every per-tenant request of a split carries
/// exactly the metadata of the incoming request, element for element.
pub proof fn lemma_metadata_replication(
    request: WriteRequestV,
    tenant_labels: Seq<Seq<char>>,
    allow_list: Seq<Seq<char>>,
    allow_list_enabled: bool,
    replicate_to: Seq<Seq<char>>,
    i: int,
)
    requires
        0 <= i < spec_split_request(
            request,
            tenant_labels,
            allow_list,
            allow_list_enabled,
            replicate_to,
        ).len(),
    ensures
        spec_split_request(
            request,
            tenant_labels,
            allow_list,
            allow_list_enabled,
            replicate_to,
        )[i].1.metadata == request.metadata,
{
    lemma_split_series_empty_metadata(
        Seq::empty(),
        request.timeseries,
        tenant_labels,
        allow_list,
        allow_list_enabled,
        replicate_to,
    );
    let res = spec_split_request(
        request,
        tenant_labels,
        allow_list,
        allow_list_enabled,
        replicate_to,
    );
    assert(res[i].1.metadata =~= request.metadata);
}

/// Allow-list honored: with the allow-list enabled, every tenant that
/// receives a per-tenant request is a replication target or allow-listed.
pub proof fn lemma_allow_list_honored(
    request: WriteRequestV,
    tenant_labels: Seq<Seq<char>>,
    allow_list: Seq<Seq<char>>,
    replicate_to: Seq<Seq<char>>,
    i: int,
)
    requires
        0 <= i < spec_split_request(request, tenant_labels, allow_list, true, replicate_to).len(),
    ensures
        ({
            let key = spec_split_request(
                request,
                tenant_labels,
                allow_list,
                true,
                replicate_to,
            )[i].0;
            replicate_to.contains(key) || allow_list.contains(key)
        }),
{
    let base = spec_split_series(
        Seq::empty(),
        request.timeseries,
        tenant_labels,
        allow_list,
        true,
        replicate_to,
    );
    let res = spec_split_request(request, tenant_labels, allow_list, true, replicate_to);
    let key = res[i].0;
    assert(key == base[i].0);
    lemma_split_series_keys(
        Seq::empty(),
        request.timeseries,
        tenant_labels,
        allow_list,
        true,
        replicate_to,
    );
    assert(key_idx(Seq::<(Seq<char>, WriteRequestV)>::empty(), key) == -1);
    assert(!has_key(Seq::<(Seq<char>, WriteRequestV)>::empty(), key));
    let i0 = choose|i0: int|
        0 <= i0 < request.timeseries.len() && series_target_tenants(
            request.timeseries[i0],
            tenant_labels,
            allow_list,
            true,
            replicate_to,
        ).contains(key);
    let from_labels = crate::splitter::label_tenant_values(
        request.timeseries[i0].labels,
        tenant_labels,
    );
    lemma_dedup_first_contains(replicate_to + keep_in(from_labels, allow_list), key);
    lemma_concat_contains(replicate_to, keep_in(from_labels, allow_list), key);
    lemma_keep_in_contains(from_labels, allow_list, key);
}

/// Tenant fan-out for a single series, free of any execution bounds: the
/// series is routed to exactly its target tenants — each routed tenant's
/// request gains one copy of the series at the end (the entry is created
/// when absent), and the entry of every other tenant is untouched.
pub proof fn lemma_single_series_fanout(
    m: TenantMapV,
    ts: TimeSeriesV,
    tenant_labels: Seq<Seq<char>>,
    allow_list: Seq<Seq<char>>,
    allow_list_enabled: bool,
    replicate_to: Seq<Seq<char>>,
    t: Seq<char>,
)
    ensures
        ({
            let targets = series_target_tenants(
                ts,
                tenant_labels,
                allow_list,
                allow_list_enabled,
                replicate_to,
            );
            let res = spec_route_series(m, targets, ts);
            &&& (targets.contains(t) && has_key(m, t)) ==> {
                &&& key_idx(res, t) == key_idx(m, t)
                &&& res[key_idx(m, t)].1.timeseries == m[key_idx(m, t)].1.timeseries.push(ts)
                &&& res[key_idx(m, t)].1.metadata == m[key_idx(m, t)].1.metadata
            }
            &&& (targets.contains(t) && !has_key(m, t)) ==> {
                &&& has_key(res, t)
                &&& res[key_idx(res, t)].1.timeseries == seq![ts]
                &&& res[key_idx(res, t)].1.metadata == Seq::<MetricMetadataV>::empty()
            }
            &&& !targets.contains(t) ==> {
                &&& key_idx(res, t) == key_idx(m, t)
                &&& has_key(m, t) ==> res[key_idx(m, t)] == m[key_idx(m, t)]
            }
        }),
{
    let from_labels = crate::splitter::label_tenant_values(ts.labels, tenant_labels);
    lemma_dedup_first_no_duplicates(
        replicate_to + (
        if allow_list_enabled {
            keep_in(from_labels, allow_list)
        } else {
            from_labels
        }),
    );
    lemma_route_series_effect(
        m,
        series_target_tenants(ts, tenant_labels, allow_list, allow_list_enabled, replicate_to),
        ts,
        t,
    );
}

/// Allow-list honored for a single series: with the allow-list enabled,
/// every tenant the series targets is a replication target or allow-listed.
pub proof fn lemma_series_targets_allowed(
    ts: TimeSeriesV,
    tenant_labels: Seq<Seq<char>>,
    allow_list: Seq<Seq<char>>,
    replicate_to: Seq<Seq<char>>,
    t: Seq<char>,
)
    requires
        series_target_tenants(ts, tenant_labels, allow_list, true, replicate_to).contains(t),
    ensures
        replicate_to.contains(t) || allow_list.contains(t),
{
    let from_labels = crate::splitter::label_tenant_values(ts.labels, tenant_labels);
    lemma_dedup_first_contains(replicate_to + keep_in(from_labels, allow_list), t);
    lemma_concat_contains(replicate_to, keep_in(from_labels, allow_list), t);
    lemma_keep_in_contains(from_labels, allow_list, t);
}

} // verus!
