//! The data model of the remote-write plane.
//!
//! A `WriteRequest` carries time series (labels plus samples) and metadata
//! records.  Sample values arrive as 64-bit floating-point numbers on the
//! wire; the library never computes with them, so each is carried verbatim
//! as its bit pattern.

use vstd::prelude::*;

verus! {

/// One label of a time series: a `(name, value)` pair.
#[derive(Debug, PartialEq, Eq)]
pub struct Label {
    pub name: String,
    pub value: String,
}

/// The mathematical value of a `Label`.
pub struct LabelV {
    pub name: Seq<char>,
    pub value: Seq<char>,
}

impl View for Label {
    type V = LabelV;

    open spec fn view(&self) -> LabelV {
        LabelV { name: self.name@, value: self.value@ }
    }
}

impl Label {
    /// An equal label under a fresh allocation.
    pub fn duplicate(&self) -> (r: Label)
        ensures
            r@ == self@,
    {
        Label { name: self.name.clone(), value: self.value.clone() }
    }
}

/// One sample: a timestamp in milliseconds and the bit pattern of the
/// 64-bit floating-point value, preserved verbatim.
#[derive(Clone, Copy, Debug, PartialEq, Eq, Structural)]
pub struct Sample {
    pub value_bits: u64,
    pub timestamp_ms: i64,
}

/// One time series: ordered labels and ordered samples.
#[derive(Debug, PartialEq, Eq)]
pub struct TimeSeries {
    pub labels: Vec<Label>,
    pub samples: Vec<Sample>,
}

/// The mathematical value of a `TimeSeries`.
pub struct TimeSeriesV {
    pub labels: Seq<LabelV>,
    pub samples: Seq<Sample>,
}

impl View for TimeSeries {
    type V = TimeSeriesV;

    open spec fn view(&self) -> TimeSeriesV {
        TimeSeriesV {
            labels: self.labels@.map_values(|l: Label| l@),
            samples: self.samples@,
        }
    }
}

impl TimeSeries {
    /// An equal time series under a fresh allocation.
    #[verifier::loop_isolation(false)]
    pub fn duplicate(&self) -> (r: TimeSeries)
        ensures
            r@ == self@,
    {
        let mut labels: Vec<Label> = Vec::new();
        let mut i: usize = 0;
        while i < self.labels.len()
            invariant
                i <= self.labels@.len(),
                labels@.len() == i,
                forall|j: int| 0 <= j < i ==> labels@[j]@ == self.labels@[j]@,
            decreases self.labels@.len() - i,
        {
            labels.push(self.labels[i].duplicate());
            i += 1;
        }
        let mut samples: Vec<Sample> = Vec::new();
        let mut k: usize = 0;
        while k < self.samples.len()
            invariant
                k <= self.samples@.len(),
                samples@.len() == k,
                forall|j: int| 0 <= j < k ==> samples@[j] == self.samples@[j],
            decreases self.samples@.len() - k,
        {
            samples.push(self.samples[k]);
            k += 1;
        }
        let r = TimeSeries { labels, samples };
        proof {
            assert(r@.labels =~= self@.labels);
            assert(r@.samples =~= self@.samples);
        }
        r
    }
}

/// One metadata record, preserved verbatim: the metric type code as it
/// stands on the wire, and the three descriptive strings.
#[derive(Debug, PartialEq, Eq)]
pub struct MetricMetadata {
    pub metric_type: u64,
    pub metric_family_name: String,
    pub help: String,
    pub unit: String,
}

/// The mathematical value of a `MetricMetadata`.
pub struct MetricMetadataV {
    pub metric_type: u64,
    pub metric_family_name: Seq<char>,
    pub help: Seq<char>,
    pub unit: Seq<char>,
}

impl View for MetricMetadata {
    type V = MetricMetadataV;

    open spec fn view(&self) -> MetricMetadataV {
        MetricMetadataV {
            metric_type: self.metric_type,
            metric_family_name: self.metric_family_name@,
            help: self.help@,
            unit: self.unit@,
        }
    }
}

impl MetricMetadata {
    /// An equal record under a fresh allocation.
    pub fn duplicate(&self) -> (r: MetricMetadata)
        ensures
            r@ == self@,
    {
        MetricMetadata {
            metric_type: self.metric_type,
            metric_family_name: self.metric_family_name.clone(),
            help: self.help.clone(),
            unit: self.unit.clone(),
        }
    }
}

/// One remote-write request: time series and metadata records.
#[derive(Debug, PartialEq, Eq)]
pub struct WriteRequest {
    pub timeseries: Vec<TimeSeries>,
    pub metadata: Vec<MetricMetadata>,
}

/// The mathematical value of a `WriteRequest`.
pub struct WriteRequestV {
    pub timeseries: Seq<TimeSeriesV>,
    pub metadata: Seq<MetricMetadataV>,
}

impl View for WriteRequest {
    type V = WriteRequestV;

    open spec fn view(&self) -> WriteRequestV {
        WriteRequestV {
            timeseries: self.timeseries@.map_values(|t: TimeSeries| t@),
            metadata: self.metadata@.map_values(|m: MetricMetadata| m@),
        }
    }
}

impl WriteRequest {
    /// The empty request.
    pub fn new() -> (r: WriteRequest)
        ensures
            r@.timeseries == Seq::<TimeSeriesV>::empty(),
            r@.metadata == Seq::<MetricMetadataV>::empty(),
    {
        let r = WriteRequest { timeseries: Vec::new(), metadata: Vec::new() };
        proof {
            assert(r@.timeseries =~= Seq::<TimeSeriesV>::empty());
            assert(r@.metadata =~= Seq::<MetricMetadataV>::empty());
        }
        r
    }
}

} // verus!
