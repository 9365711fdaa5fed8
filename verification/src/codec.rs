//! The remote-write codec.
//!
//! A request body is the snappy-raw compression of a protobuf-encoded
//! `WriteRequest`.  The wire format is the standard protobuf one: a
//! message is a run of fields, each a varint key holding field number and
//! wire type, followed by the field data; nested messages and strings are
//! length-delimited; the sample value travels as eight little-endian
//! bytes, the timestamp as a varint.  The decoder takes fields in any
//! order, keeps the last value of a singular field, appends repeated
//! fields, and skips unknown ones, as a protobuf parser must.

use vstd::prelude::*;
use vstd::utf8::decode_utf8;
use vstd::utf8::encode_utf8;
use vstd::utf8::valid_utf8;

use crate::model::Label;
use crate::model::LabelV;
use crate::model::MetricMetadata;
use crate::model::MetricMetadataV;
use crate::model::Sample;
use crate::model::TimeSeries;
use crate::model::TimeSeriesV;
use crate::model::WriteRequest;
use crate::model::WriteRequestV;

verus! {

/// What snappy-raw compression of a byte sequence yields; a function of
/// the bytes alone.
pub uninterp spec fn snap_compress(data: Seq<u8>) -> Seq<u8>;

/// What snappy-raw decompression of a byte sequence yields, when it is
/// valid; a function of the bytes alone.
pub uninterp spec fn snap_decompress(data: Seq<u8>) -> Option<Seq<u8>>;

/// Relies on snap's raw `Encoder::compress_vec`: a fresh encoder is
/// deterministic in its input, the call cannot fail while the worst-case
/// compressed size `32 + n + n/6` stays within the format's 32-bit bound,
/// and its output decompresses back to the input.
#[verifier::external_body]
fn snappy_compress(data: &Vec<u8>) -> (r: Vec<u8>)
    requires
        32 + data@.len() + data@.len() / 6 <= 0xffff_ffff,
    ensures
        r@ == snap_compress(data@),
        snap_decompress(r@) == Some(data@),
{
    snap::raw::Encoder::new().compress_vec(data.as_slice()).unwrap()
}

/// Relies on snap's raw `Decoder::decompress_vec`: deterministic in its
/// input, it yields the decompressed bytes or fails.
#[verifier::external_body]
fn snappy_decompress(data: &Vec<u8>) -> (r: Option<Vec<u8>>)
    ensures
        match r {
            Some(v) => snap_decompress(data@) == Some(v@),
            None => snap_decompress(data@) is None,
        },
{
    snap::raw::Decoder::new().decompress_vec(data.as_slice()).ok()
}

/// Relies on str::as_bytes: the UTF-8 encoding of the string's characters.
#[verifier::external_body]
pub fn string_bytes(s: &String) -> (r: Vec<u8>)
    ensures
        r@ == encode_utf8(s@),
{
    s.as_bytes().to_vec()
}

/// Relies on String::from_utf8: it succeeds exactly on valid UTF-8 and
/// yields the string whose characters are the UTF-8 decoding.
#[verifier::external_body]
fn bytes_to_string(v: Vec<u8>) -> (r: Option<String>)
    ensures
        match r {
            Some(s) => valid_utf8(v@) && s@ == decode_utf8(v@),
            None => !valid_utf8(v@),
        },
{
    match String::from_utf8(v) {
        Ok(s) => Some(s),
        Err(_) => None,
    }
}

/// The varint encoding: seven bits per byte, least significant first, the
/// top bit marking continuation.
pub open spec fn spec_varint(n: u64) -> Seq<u8>
    decreases n,
{
    if n < 0x80 {
        seq![n as u8]
    } else {
        seq![((n % 0x80) + 0x80) as u8] + spec_varint(n / 0x80)
    }
}

/// A length-delimited field: tag byte, varint length, payload.
pub open spec fn spec_tagged(tag: u8, payload: Seq<u8>) -> Seq<u8> {
    seq![tag] + spec_varint(payload.len() as u64) + payload
}

/// Eight little-endian bytes.
pub open spec fn spec_le64(n: u64) -> Seq<u8> {
    seq![
        (n % 0x100) as u8,
        ((n / 0x100) % 0x100) as u8,
        ((n / 0x1_0000) % 0x100) as u8,
        ((n / 0x100_0000) % 0x100) as u8,
        ((n / 0x1_0000_0000) % 0x100) as u8,
        ((n / 0x100_0000_0000) % 0x100) as u8,
        ((n / 0x1_0000_0000_0000) % 0x100) as u8,
        (n / 0x100_0000_0000_0000) as u8,
    ]
}

/// One label message: name in field 1, value in field 2.
pub open spec fn spec_encode_label(l: LabelV) -> Seq<u8> {
    spec_tagged(0x0A, encode_utf8(l.name)) + spec_tagged(0x12, encode_utf8(l.value))
}

/// One sample message: the value bits as fixed64 in field 1, the
/// timestamp as a varint in field 2.
pub open spec fn spec_encode_sample(s: Sample) -> Seq<u8> {
    seq![0x09u8] + spec_le64(s.value_bits) + seq![0x10u8] + spec_varint(
        s.timestamp_ms as u64,
    )
}

/// The labels of one series, each as a length-delimited field 1.
pub open spec fn spec_encode_labels(labels: Seq<LabelV>) -> Seq<u8>
    decreases labels.len(),
{
    if labels.len() == 0 {
        Seq::empty()
    } else {
        spec_encode_labels(labels.drop_last()) + spec_tagged(
            0x0A,
            spec_encode_label(labels.last()),
        )
    }
}

/// The samples of one series, each as a length-delimited field 2.
pub open spec fn spec_encode_samples(samples: Seq<Sample>) -> Seq<u8>
    decreases samples.len(),
{
    if samples.len() == 0 {
        Seq::empty()
    } else {
        spec_encode_samples(samples.drop_last()) + spec_tagged(
            0x12,
            spec_encode_sample(samples.last()),
        )
    }
}

/// One time-series message: its labels, then its samples.
pub open spec fn spec_encode_time_series(ts: TimeSeriesV) -> Seq<u8> {
    spec_encode_labels(ts.labels) + spec_encode_samples(ts.samples)
}

/// One metadata message: type in field 1 as a varint, family name, help
/// and unit in fields 2, 4 and 5.
pub open spec fn spec_encode_metadata(m: MetricMetadataV) -> Seq<u8> {
    seq![0x08u8] + spec_varint(m.metric_type) + spec_tagged(
        0x12,
        encode_utf8(m.metric_family_name),
    ) + spec_tagged(0x22, encode_utf8(m.help)) + spec_tagged(0x2A, encode_utf8(m.unit))
}

/// The series of a request, each as a length-delimited field 1.
pub open spec fn spec_encode_series_list(series: Seq<TimeSeriesV>) -> Seq<u8>
    decreases series.len(),
{
    if series.len() == 0 {
        Seq::empty()
    } else {
        spec_encode_series_list(series.drop_last()) + spec_tagged(
            0x0A,
            spec_encode_time_series(series.last()),
        )
    }
}

/// The metadata of a request, each as a length-delimited field 3.
pub open spec fn spec_encode_metadata_list(metadata: Seq<MetricMetadataV>) -> Seq<u8>
    decreases metadata.len(),
{
    if metadata.len() == 0 {
        Seq::empty()
    } else {
        spec_encode_metadata_list(metadata.drop_last()) + spec_tagged(
            0x1A,
            spec_encode_metadata(metadata.last()),
        )
    }
}

/// The protobuf encoding of a whole request.
pub open spec fn spec_encode_write_request(w: WriteRequestV) -> Seq<u8> {
    spec_encode_series_list(w.timeseries) + spec_encode_metadata_list(w.metadata)
}

/// Appends the varint encoding of `n`.
#[verifier::loop_isolation(false)]
fn push_varint(out: &mut Vec<u8>, n: u64)
    ensures
        final(out)@ == old(out)@ + spec_varint(n),
{
    let mut m = n;
    while m >= 0x80
        invariant
            old(out)@ + spec_varint(n) == out@ + spec_varint(m),
        decreases m,
    {
        let ghost before = out@;
        let b = ((m % 0x80) + 0x80) as u8;
        out.push(b);
        proof {
            assert(spec_varint(m) == seq![b] + spec_varint(m / 0x80));
            assert(before + spec_varint(m) =~= out@ + spec_varint(m / 0x80));
        }
        m = m / 0x80;
    }
    let ghost before = out@;
    out.push(m as u8);
    proof {
        assert(spec_varint(m) == seq![m as u8]);
        assert(before + spec_varint(m) =~= out@);
    }
}

/// Appends eight little-endian bytes.
fn push_le64(out: &mut Vec<u8>, n: u64)
    ensures
        final(out)@ == old(out)@ + spec_le64(n),
{
    out.push((n % 0x100) as u8);
    out.push(((n / 0x100) % 0x100) as u8);
    out.push(((n / 0x1_0000) % 0x100) as u8);
    out.push(((n / 0x100_0000) % 0x100) as u8);
    out.push(((n / 0x1_0000_0000) % 0x100) as u8);
    out.push(((n / 0x100_0000_0000) % 0x100) as u8);
    out.push(((n / 0x1_0000_0000_0000) % 0x100) as u8);
    out.push((n / 0x100_0000_0000_0000) as u8);
    proof {
        assert(out@ =~= old(out)@ + spec_le64(n));
    }
}

/// Appends a length-delimited field: tag, varint length, payload.
#[verifier::loop_isolation(false)]
fn push_tagged(out: &mut Vec<u8>, tag: u8, payload: &Vec<u8>)
    ensures
        final(out)@ == old(out)@ + spec_tagged(tag, payload@),
{
    let ghost start = out@;
    out.push(tag);
    proof {
        assert(out@ =~= start + seq![tag]);
    }
    push_varint(out, payload.len() as u64);
    let ghost mid = out@;
    let mut i: usize = 0;
    while i < payload.len()
        invariant
            i <= payload@.len(),
            out@ == mid + payload@.take(i as int),
        decreases payload@.len() - i,
    {
        let ghost before = out@;
        out.push(payload[i]);
        proof {
            assert(out@ =~= mid + payload@.take(i + 1));
        }
        i += 1;
    }
    proof {
        assert(payload@.take(payload@.len() as int) =~= payload@);
        assert(out@ =~= start + spec_tagged(tag, payload@));
    }
}

/// Encodes one label message.
fn encode_label(l: &Label) -> (r: Vec<u8>)
    ensures
        r@ == spec_encode_label(l@),
{
    let name_bytes = string_bytes(&l.name);
    let value_bytes = string_bytes(&l.value);
    let mut out: Vec<u8> = Vec::new();
    push_tagged(&mut out, 0x0A, &name_bytes);
    push_tagged(&mut out, 0x12, &value_bytes);
    proof {
        assert(out@ =~= spec_encode_label(l@));
    }
    out
}

/// Encodes one sample message.
fn encode_sample(s: &Sample) -> (r: Vec<u8>)
    ensures
        r@ == spec_encode_sample(*s),
{
    let mut out: Vec<u8> = Vec::new();
    out.push(0x09);
    push_le64(&mut out, s.value_bits);
    out.push(0x10);
    push_varint(&mut out, s.timestamp_ms as u64);
    proof {
        assert(out@ =~= spec_encode_sample(*s));
    }
    out
}

/// Encodes one time-series message.
#[verifier::loop_isolation(false)]
fn encode_time_series(ts: &TimeSeries) -> (r: Vec<u8>)
    ensures
        r@ == spec_encode_time_series(ts@),
{
    let ghost lv = ts@.labels;
    let ghost sv = ts@.samples;
    let mut out: Vec<u8> = Vec::new();
    proof {
        assert(out@ =~= spec_encode_labels(lv.take(0)));
    }
    let mut i: usize = 0;
    while i < ts.labels.len()
        invariant
            i <= lv.len(),
            lv == ts@.labels,
            out@ == spec_encode_labels(lv.take(i as int)),
        decreases lv.len() - i,
    {
        proof {
            assert(lv.take(i + 1).drop_last() =~= lv.take(i as int));
            assert(lv.take(i + 1).last() == ts.labels@[i as int]@);
        }
        let sub = encode_label(&ts.labels[i]);
        push_tagged(&mut out, 0x0A, &sub);
        i += 1;
    }
    proof {
        assert(lv.take(lv.len() as int) =~= lv);
    }
    let mut k: usize = 0;
    while k < ts.samples.len()
        invariant
            k <= sv.len(),
            sv == ts@.samples,
            out@ == spec_encode_labels(lv) + spec_encode_samples(sv.take(k as int)),
        decreases sv.len() - k,
    {
        proof {
            assert(sv.take(k + 1).drop_last() =~= sv.take(k as int));
            assert(sv.take(k + 1).last() == ts.samples@[k as int]);
        }
        let sub = encode_sample(&ts.samples[k]);
        push_tagged(&mut out, 0x12, &sub);
        proof {
            assert(out@ =~= spec_encode_labels(lv) + spec_encode_samples(sv.take(k + 1)));
        }
        k += 1;
    }
    proof {
        assert(sv.take(sv.len() as int) =~= sv);
        assert(spec_encode_labels(lv) + spec_encode_samples(sv.take(0)) =~= spec_encode_labels(
            lv));
    }
    out
}

/// Encodes one metadata message.
fn encode_metadata(m: &MetricMetadata) -> (r: Vec<u8>)
    ensures
        r@ == spec_encode_metadata(m@),
{
    let family_bytes = string_bytes(&m.metric_family_name);
    let help_bytes = string_bytes(&m.help);
    let unit_bytes = string_bytes(&m.unit);
    let mut out: Vec<u8> = Vec::new();
    out.push(0x08);
    push_varint(&mut out, m.metric_type);
    push_tagged(&mut out, 0x12, &family_bytes);
    push_tagged(&mut out, 0x22, &help_bytes);
    push_tagged(&mut out, 0x2A, &unit_bytes);
    proof {
        assert(out@ =~= spec_encode_metadata(m@));
    }
    out
}

/// Encodes a whole request into protobuf bytes.
#[verifier::loop_isolation(false)]
pub fn encode_write_request_bytes(write_request: &WriteRequest) -> (r: Vec<u8>)
    ensures
        r@ == spec_encode_write_request(write_request@),
{
    let ghost tv = write_request@.timeseries;
    let ghost mv = write_request@.metadata;
    let mut out: Vec<u8> = Vec::new();
    proof {
        assert(out@ =~= spec_encode_series_list(tv.take(0)));
    }
    let mut i: usize = 0;
    while i < write_request.timeseries.len()
        invariant
            i <= tv.len(),
            tv == write_request@.timeseries,
            out@ == spec_encode_series_list(tv.take(i as int)),
        decreases tv.len() - i,
    {
        proof {
            assert(tv.take(i + 1).drop_last() =~= tv.take(i as int));
            assert(tv.take(i + 1).last() == write_request.timeseries@[i as int]@);
        }
        let sub = encode_time_series(&write_request.timeseries[i]);
        push_tagged(&mut out, 0x0A, &sub);
        i += 1;
    }
    proof {
        assert(tv.take(tv.len() as int) =~= tv);
    }
    let mut k: usize = 0;
    while k < write_request.metadata.len()
        invariant
            k <= mv.len(),
            mv == write_request@.metadata,
            out@ == spec_encode_series_list(tv) + spec_encode_metadata_list(mv.take(k as int)),
        decreases mv.len() - k,
    {
        proof {
            assert(mv.take(k + 1).drop_last() =~= mv.take(k as int));
            assert(mv.take(k + 1).last() == write_request.metadata@[k as int]@);
        }
        let sub = encode_metadata(&write_request.metadata[k]);
        push_tagged(&mut out, 0x1A, &sub);
        proof {
            assert(out@ =~= spec_encode_series_list(tv) + spec_encode_metadata_list(mv.take(
                k + 1)));
        }
        k += 1;
    }
    proof {
        assert(mv.take(mv.len() as int) =~= mv);
        assert(spec_encode_series_list(tv) + spec_encode_metadata_list(mv.take(0))
            =~= spec_encode_series_list(tv));
    }
    out
}

/// The varint decoding, one byte at a time: `acc` and `mult` carry the
/// partial value; at most ten bytes are taken, and the value wraps to 64
/// bits as a protobuf reader's does.
pub open spec fn parse_varint_rec(bytes: Seq<u8>, pos: int, acc: nat, mult: nat, count: int)
    -> Option<(u64, int)>
    decreases 10 - count,
{
    if count >= 10 || pos < 0 || pos >= bytes.len() {
        None
    } else {
        let b = bytes[pos];
        if b < 0x80 {
            Some((((acc + mult * (b as nat)) % 0x1_0000_0000_0000_0000) as u64, pos + 1))
        } else {
            parse_varint_rec(
                bytes,
                pos + 1,
                acc + mult * ((b - 0x80) as nat),
                mult * 0x80,
                count + 1,
            )
        }
    }
}

/// The varint at `pos`, with the position after it.
pub open spec fn parse_varint(bytes: Seq<u8>, pos: int) -> Option<(u64, int)> {
    parse_varint_rec(bytes, pos, 0, 1, 0)
}

/// Powers of 128.
spec fn p128(c: nat) -> nat
    decreases c,
{
    if c == 0 {
        1
    } else {
        0x80 * p128((c - 1) as nat)
    }
}

proof fn lemma_p128_bound(c: nat)
    requires
        c <= 10,
    ensures
        1 <= p128(c) <= 0x40_0000_0000_0000_0000,
        c == 10 ==> p128(c) == 0x40_0000_0000_0000_0000,
    decreases 10 - c,
{
    lemma_p128_pos(c);
    if c < 10 {
        lemma_p128_bound((c + 1) as nat);
        assert(p128((c + 1) as nat) == 0x80 * p128(c));
    } else {
        reveal_with_fuel(p128, 11);
        assert(p128(10) == 0x40_0000_0000_0000_0000) by (nonlinear_arith)
            requires
                p128(10) == 0x80 * p128(9),
                p128(9) == 0x80 * p128(8),
                p128(8) == 0x80 * p128(7),
                p128(7) == 0x80 * p128(6),
                p128(6) == 0x80 * p128(5),
                p128(5) == 0x80 * p128(4),
                p128(4) == 0x80 * p128(3),
                p128(3) == 0x80 * p128(2),
                p128(2) == 0x80 * p128(1),
                p128(1) == 0x80 * p128(0),
                p128(0) == 1,
        ;
    }
}

proof fn lemma_p128_pos(c: nat)
    ensures
        p128(c) >= 1,
    decreases c,
{
    if c > 0 {
        lemma_p128_pos((c - 1) as nat);
    }
}

/// Reads the varint at `pos`, mirroring the decoding specification.
fn read_varint_rec(bytes: &Vec<u8>, pos: usize, acc: u128, mult: u128, count: u8) -> (r: Option<
    (u64, usize),
>)
    requires
        count <= 10,
        mult as nat == p128(count as nat),
        acc < mult || (acc == 0 && mult == 1),
        (acc as nat) < p128(10),
    ensures
        ({
            let s = parse_varint_rec(bytes@, pos as int, acc as nat, mult as nat, count as int);
            match r {
                Some((v, p)) => s == Some((v, p as int)) && p <= bytes@.len(),
                None => s is None,
            }
        }),
    decreases 10 - count,
{
    proof {
        lemma_p128_bound(count as nat);
        lemma_p128_bound(10);
    }
    if count >= 10 {
        return None;
    }
    if pos >= bytes.len() {
        return None;
    }
    let b = bytes[pos];
    if b < 0x80 {
        proof {
            assert(mult * (b as u128) <= mult * 0x7f) by (nonlinear_arith)
                requires
                    b < 0x80,
                    mult >= 0,
            ;
        }
        let v = ((acc + mult * (b as u128)) % 0x1_0000_0000_0000_0000u128) as u64;
        Some((v, pos + 1))
    } else {
        proof {
            assert(mult * ((b - 0x80) as u128) <= mult * 0x7f) by (nonlinear_arith)
                requires
                    b >= 0x80,
                    b <= 0xff,
                    mult >= 0,
            ;
            assert(acc + mult * 0x7f < mult * 0x80) by (nonlinear_arith)
                requires
                    acc < mult || (acc == 0 && mult == 1),
                    mult >= 1,
            ;
            assert(p128((count + 1) as nat) == 0x80 * p128(count as nat));
            lemma_p128_bound((count + 1) as nat);
            assert(acc + mult * ((b - 0x80) as u128) < mult * 0x80);
        }
        read_varint_rec(bytes, pos + 1, acc + mult * ((b - 0x80) as u128), mult * 0x80, count
            + 1)
    }
}

/// Reads the varint at `pos`.
fn read_varint(bytes: &Vec<u8>, pos: usize) -> (r: Option<(u64, usize)>)
    ensures
        ({
            let s = parse_varint(bytes@, pos as int);
            match r {
                Some((v, p)) => s == Some((v, p as int)) && p <= bytes@.len(),
                None => s is None,
            }
        }),
{
    proof {
        assert(p128(0) == 1);
        lemma_p128_bound(10);
    }
    read_varint_rec(bytes, pos, 0, 1, 0)
}

/// The window of a length-delimited payload at `pos`: its first and
/// one-past-last positions, within `end`.
pub open spec fn spec_read_len(bytes: Seq<u8>, pos: int, end: int) -> Option<(int, int)> {
    match parse_varint(bytes, pos) {
        None => None,
        Some((l, p)) => if p > end || l as int > end - p {
            None
        } else {
            Some((p, p + l))
        },
    }
}

/// Reads a length-delimited payload window at `pos`.
fn read_len(bytes: &Vec<u8>, pos: usize, end: usize) -> (r: Option<(usize, usize)>)
    requires
        end <= bytes@.len(),
    ensures
        ({
            let s = spec_read_len(bytes@, pos as int, end as int);
            match r {
                Some((lo, hi)) => s == Some((lo as int, hi as int)) && lo <= hi <= end,
                None => s is None,
            }
        }),
{
    match read_varint(bytes, pos) {
        None => None,
        Some((l, p)) => {
            if p > end || l > (end - p) as u64 {
                None
            } else {
                Some((p, p + l as usize))
            }
        },
    }
}

/// Where a skipped field of the given wire type ends.
pub open spec fn spec_skip_field(bytes: Seq<u8>, pos: int, end: int, wire: u64) -> Option<int> {
    if wire == 0 {
        match parse_varint(bytes, pos) {
            None => None,
            Some((_v, p)) => if p > end {
                None
            } else {
                Some(p)
            },
        }
    } else if wire == 1 {
        if end - pos >= 8 {
            Some(pos + 8)
        } else {
            None
        }
    } else if wire == 5 {
        if end - pos >= 4 {
            Some(pos + 4)
        } else {
            None
        }
    } else if wire == 2 {
        match spec_read_len(bytes, pos, end) {
            None => None,
            Some((_lo, hi)) => Some(hi),
        }
    } else {
        None
    }
}

/// Skips one field of the given wire type.
fn skip_field(bytes: &Vec<u8>, pos: usize, end: usize, wire: u64) -> (r: Option<usize>)
    requires
        pos <= end <= bytes@.len(),
    ensures
        ({
            let s = spec_skip_field(bytes@, pos as int, end as int, wire);
            match r {
                Some(p) => s == Some(p as int) && p <= end,
                None => s is None,
            }
        }),
{
    if wire == 0 {
        match read_varint(bytes, pos) {
            None => None,
            Some((_v, p)) => {
                if p > end {
                    None
                } else {
                    Some(p)
                }
            },
        }
    } else if wire == 1 {
        if end - pos >= 8 {
            Some(pos + 8)
        } else {
            None
        }
    } else if wire == 5 {
        if end - pos >= 4 {
            Some(pos + 4)
        } else {
            None
        }
    } else if wire == 2 {
        match read_len(bytes, pos, end) {
            None => None,
            Some((_lo, hi)) => Some(hi),
        }
    } else {
        None
    }
}

/// The bytes of a window, as a fresh vector.
#[verifier::loop_isolation(false)]
fn sub_bytes(bytes: &Vec<u8>, from: usize, to: usize) -> (r: Vec<u8>)
    requires
        from <= to <= bytes@.len(),
    ensures
        r@ == bytes@.subrange(from as int, to as int),
{
    let mut r: Vec<u8> = Vec::new();
    let mut i: usize = from;
    while i < to
        invariant
            from <= i <= to,
            r@ == bytes@.subrange(from as int, i as int),
        decreases to - i,
    {
        let ghost before = r@;
        r.push(bytes[i]);
        proof {
            assert(r@ =~= bytes@.subrange(from as int, i + 1));
        }
        i += 1;
    }
    r
}

/// The little-endian 64-bit value at `pos`.
pub open spec fn spec_le64_read(bytes: Seq<u8>, pos: int) -> u64 {
    let b0 = bytes[pos] as nat;
    let b1 = bytes[pos + 1] as nat;
    let b2 = bytes[pos + 2] as nat;
    let b3 = bytes[pos + 3] as nat;
    let b4 = bytes[pos + 4] as nat;
    let b5 = bytes[pos + 5] as nat;
    let b6 = bytes[pos + 6] as nat;
    let b7 = bytes[pos + 7] as nat;
    let v = ((((((b7 * 0x100 + b6) * 0x100 + b5) * 0x100 + b4) * 0x100 + b3) * 0x100 + b2)
        * 0x100 + b1) * 0x100 + b0;
    v as u64
}

/// Reads the little-endian 64-bit value at `pos`.
fn read_le64(bytes: &Vec<u8>, pos: usize) -> (r: u64)
    requires
        pos + 8 <= bytes@.len(),
    ensures
        r == spec_le64_read(bytes@, pos as int),
{
    let n = bytes.len();
    let b0 = bytes[pos] as u64;
    let b1 = bytes[pos + 1] as u64;
    let b2 = bytes[pos + 2] as u64;
    let b3 = bytes[pos + 3] as u64;
    let b4 = bytes[pos + 4] as u64;
    let b5 = bytes[pos + 5] as u64;
    let b6 = bytes[pos + 6] as u64;
    let b7 = bytes[pos + 7] as u64;
    let r = ((((((b7 * 0x100 + b6) * 0x100 + b5) * 0x100 + b4) * 0x100 + b3) * 0x100 + b2)
        * 0x100 + b1) * 0x100 + b0;
    r
}

/// The label message in the window `[pos, end)`, fields taken in any
/// order, the last value of a field winning, unknown fields skipped.
pub open spec fn parse_label_loop(
    bytes: Seq<u8>,
    pos: int,
    end: int,
    name: Seq<char>,
    value: Seq<char>,
) -> Option<LabelV>
    decreases end - pos,
{
    if pos == end {
        Some(LabelV { name, value })
    } else if pos > end || pos < 0 {
        None
    } else {
        match parse_varint(bytes, pos) {
            None => None,
            Some((key, p1)) => if p1 > end || p1 <= pos {
                None
            } else {
                let field = key / 8;
                let wire = key % 8;
                if wire == 2 && (field == 1 || field == 2) {
                    match spec_read_len(bytes, p1, end) {
                        None => None,
                        Some((lo, hi)) => if hi <= pos {
                            None
                        } else {
                            let sub = bytes.subrange(lo, hi);
                            if !valid_utf8(sub) {
                                None
                            } else if field == 1 {
                                parse_label_loop(bytes, hi, end, decode_utf8(sub), value)
                            } else {
                                parse_label_loop(bytes, hi, end, name, decode_utf8(sub))
                            }
                        },
                    }
                } else {
                    match spec_skip_field(bytes, p1, end, wire) {
                        None => None,
                        Some(p2) => if p2 <= pos {
                            None
                        } else {
                            parse_label_loop(bytes, p2, end, name, value)
                        },
                    }
                }
            },
        }
    }
}

/// The sample message in the window `[pos, end)`.
pub open spec fn parse_sample_loop(
    bytes: Seq<u8>,
    pos: int,
    end: int,
    value_bits: u64,
    timestamp_ms: i64,
) -> Option<Sample>
    decreases end - pos,
{
    if pos == end {
        Some(Sample { value_bits, timestamp_ms })
    } else if pos > end || pos < 0 {
        None
    } else {
        match parse_varint(bytes, pos) {
            None => None,
            Some((key, p1)) => if p1 > end || p1 <= pos {
                None
            } else {
                let field = key / 8;
                let wire = key % 8;
                if field == 1 && wire == 1 {
                    if end - p1 >= 8 {
                        parse_sample_loop(
                            bytes,
                            p1 + 8,
                            end,
                            spec_le64_read(bytes, p1),
                            timestamp_ms,
                        )
                    } else {
                        None
                    }
                } else if field == 2 && wire == 0 {
                    match parse_varint(bytes, p1) {
                        None => None,
                        Some((v, p2)) => if p2 > end || p2 <= pos {
                            None
                        } else {
                            parse_sample_loop(bytes, p2, end, value_bits, v as i64)
                        },
                    }
                } else {
                    match spec_skip_field(bytes, p1, end, wire) {
                        None => None,
                        Some(p2) => if p2 <= pos {
                            None
                        } else {
                            parse_sample_loop(bytes, p2, end, value_bits, timestamp_ms)
                        },
                    }
                }
            },
        }
    }
}

/// The time-series message in the window `[pos, end)`: labels and samples
/// are appended in order, unknown fields skipped.
pub open spec fn parse_ts_loop(
    bytes: Seq<u8>,
    pos: int,
    end: int,
    labels: Seq<LabelV>,
    samples: Seq<Sample>,
) -> Option<TimeSeriesV>
    decreases end - pos,
{
    if pos == end {
        Some(TimeSeriesV { labels, samples })
    } else if pos > end || pos < 0 {
        None
    } else {
        match parse_varint(bytes, pos) {
            None => None,
            Some((key, p1)) => if p1 > end || p1 <= pos {
                None
            } else {
                let field = key / 8;
                let wire = key % 8;
                if wire == 2 && (field == 1 || field == 2) {
                    match spec_read_len(bytes, p1, end) {
                        None => None,
                        Some((lo, hi)) => if hi <= pos {
                            None
                        } else if field == 1 {
                            match parse_label_loop(
                                bytes,
                                lo,
                                hi,
                                Seq::empty(),
                                Seq::empty(),
                            ) {
                                None => None,
                                Some(l) => parse_ts_loop(bytes, hi, end, labels.push(l),
                                    samples),
                            }
                        } else {
                            match parse_sample_loop(bytes, lo, hi, 0, 0) {
                                None => None,
                                Some(s) => parse_ts_loop(bytes, hi, end, labels,
                                    samples.push(s)),
                            }
                        },
                    }
                } else {
                    match spec_skip_field(bytes, p1, end, wire) {
                        None => None,
                        Some(p2) => if p2 <= pos {
                            None
                        } else {
                            parse_ts_loop(bytes, p2, end, labels, samples)
                        },
                    }
                }
            },
        }
    }
}

/// The metadata message in the window `[pos, end)`.
pub open spec fn parse_md_loop(
    bytes: Seq<u8>,
    pos: int,
    end: int,
    metric_type: u64,
    family: Seq<char>,
    help: Seq<char>,
    unit: Seq<char>,
) -> Option<MetricMetadataV>
    decreases end - pos,
{
    if pos == end {
        Some(
            MetricMetadataV {
                metric_type,
                metric_family_name: family,
                help,
                unit,
            },
        )
    } else if pos > end || pos < 0 {
        None
    } else {
        match parse_varint(bytes, pos) {
            None => None,
            Some((key, p1)) => if p1 > end || p1 <= pos {
                None
            } else {
                let field = key / 8;
                let wire = key % 8;
                if field == 1 && wire == 0 {
                    match parse_varint(bytes, p1) {
                        None => None,
                        Some((v, p2)) => if p2 > end || p2 <= pos {
                            None
                        } else {
                            parse_md_loop(bytes, p2, end, v, family, help, unit)
                        },
                    }
                } else if wire == 2 && (field == 2 || field == 4 || field == 5) {
                    match spec_read_len(bytes, p1, end) {
                        None => None,
                        Some((lo, hi)) => if hi <= pos {
                            None
                        } else {
                            let sub = bytes.subrange(lo, hi);
                            if !valid_utf8(sub) {
                                None
                            } else if field == 2 {
                                parse_md_loop(bytes, hi, end, metric_type, decode_utf8(sub),
                                    help, unit)
                            } else if field == 4 {
                                parse_md_loop(bytes, hi, end, metric_type, family,
                                    decode_utf8(sub), unit)
                            } else {
                                parse_md_loop(bytes, hi, end, metric_type, family, help,
                                    decode_utf8(sub))
                            }
                        },
                    }
                } else {
                    match spec_skip_field(bytes, p1, end, wire) {
                        None => None,
                        Some(p2) => if p2 <= pos {
                            None
                        } else {
                            parse_md_loop(bytes, p2, end, metric_type, family, help, unit)
                        },
                    }
                }
            },
        }
    }
}

/// The whole request in the window `[pos, end)`.
pub open spec fn parse_wr_loop(
    bytes: Seq<u8>,
    pos: int,
    end: int,
    timeseries: Seq<TimeSeriesV>,
    metadata: Seq<MetricMetadataV>,
) -> Option<WriteRequestV>
    decreases end - pos,
{
    if pos == end {
        Some(WriteRequestV { timeseries, metadata })
    } else if pos > end || pos < 0 {
        None
    } else {
        match parse_varint(bytes, pos) {
            None => None,
            Some((key, p1)) => if p1 > end || p1 <= pos {
                None
            } else {
                let field = key / 8;
                let wire = key % 8;
                if wire == 2 && (field == 1 || field == 3) {
                    match spec_read_len(bytes, p1, end) {
                        None => None,
                        Some((lo, hi)) => if hi <= pos {
                            None
                        } else if field == 1 {
                            match parse_ts_loop(bytes, lo, hi, Seq::empty(), Seq::empty()) {
                                None => None,
                                Some(ts) => parse_wr_loop(bytes, hi, end, timeseries.push(ts),
                                    metadata),
                            }
                        } else {
                            match parse_md_loop(
                                bytes,
                                lo,
                                hi,
                                0,
                                Seq::empty(),
                                Seq::empty(),
                                Seq::empty(),
                            ) {
                                None => None,
                                Some(md) => parse_wr_loop(bytes, hi, end, timeseries,
                                    metadata.push(md)),
                            }
                        },
                    }
                } else {
                    match spec_skip_field(bytes, p1, end, wire) {
                        None => None,
                        Some(p2) => if p2 <= pos {
                            None
                        } else {
                            parse_wr_loop(bytes, p2, end, timeseries, metadata)
                        },
                    }
                }
            },
        }
    }
}

/// The protobuf parse of a whole byte sequence.
pub open spec fn spec_parse_write_request(bytes: Seq<u8>) -> Option<WriteRequestV> {
    parse_wr_loop(bytes, 0, bytes.len() as int, Seq::empty(), Seq::empty())
}

/// Parses one label message in the window `[pos, end)`.
#[verifier::loop_isolation(false)]
fn parse_label(bytes: &Vec<u8>, pos: usize, end: usize) -> (r: Option<Label>)
    requires
        pos <= end <= bytes@.len(),
    ensures
        ({
            let s = parse_label_loop(bytes@, pos as int, end as int, Seq::empty(), Seq::empty());
            match r {
                Some(l) => s == Some(l@),
                None => s is None,
            }
        }),
{
    let mut name = String::new();
    let mut value = String::new();
    let mut p = pos;
    while p < end
        invariant
            pos <= p <= end,
            parse_label_loop(bytes@, pos as int, end as int, Seq::empty(), Seq::empty())
                == parse_label_loop(bytes@, p as int, end as int, name@, value@),
        decreases end - p,
    {
        let (key, p1) = match read_varint(bytes, p) {
            Some(x) => x,
            None => {
                return None;
            },
        };
        if p1 > end || p1 <= p {
            return None;
        }
        let field = key / 8;
        let wire = key % 8;
        if wire == 2 && (field == 1 || field == 2) {
            let (lo, hi) = match read_len(bytes, p1, end) {
                Some(x) => x,
                None => {
                    return None;
                },
            };
            if hi <= p {
                return None;
            }
            let sub = sub_bytes(bytes, lo, hi);
            let text = match bytes_to_string(sub) {
                Some(t) => t,
                None => {
                    return None;
                },
            };
            if field == 1 {
                name = text;
            } else {
                value = text;
            }
            p = hi;
        } else {
            let p2 = match skip_field(bytes, p1, end, wire) {
                Some(x) => x,
                None => {
                    return None;
                },
            };
            if p2 <= p {
                return None;
            }
            p = p2;
        }
    }
    Some(Label { name, value })
}

/// Parses one sample message in the window `[pos, end)`.
#[verifier::loop_isolation(false)]
fn parse_sample(bytes: &Vec<u8>, pos: usize, end: usize) -> (r: Option<Sample>)
    requires
        pos <= end <= bytes@.len(),
    ensures
        ({
            let s = parse_sample_loop(bytes@, pos as int, end as int, 0, 0);
            match r {
                Some(smp) => s == Some(smp),
                None => s is None,
            }
        }),
{
    let mut value_bits: u64 = 0;
    let mut timestamp_ms: i64 = 0;
    let mut p = pos;
    while p < end
        invariant
            pos <= p <= end,
            parse_sample_loop(bytes@, pos as int, end as int, 0, 0) == parse_sample_loop(
                bytes@,
                p as int,
                end as int,
                value_bits,
                timestamp_ms,
            ),
        decreases end - p,
    {
        let (key, p1) = match read_varint(bytes, p) {
            Some(x) => x,
            None => {
                return None;
            },
        };
        if p1 > end || p1 <= p {
            return None;
        }
        let field = key / 8;
        let wire = key % 8;
        if field == 1 && wire == 1 {
            if end - p1 >= 8 {
                value_bits = read_le64(bytes, p1);
                p = p1 + 8;
            } else {
                return None;
            }
        } else if field == 2 && wire == 0 {
            let (v, p2) = match read_varint(bytes, p1) {
                Some(x) => x,
                None => {
                    return None;
                },
            };
            if p2 > end || p2 <= p {
                return None;
            }
            timestamp_ms = v as i64;
            p = p2;
        } else {
            let p2 = match skip_field(bytes, p1, end, wire) {
                Some(x) => x,
                None => {
                    return None;
                },
            };
            if p2 <= p {
                return None;
            }
            p = p2;
        }
    }
    Some(Sample { value_bits, timestamp_ms })
}

/// Parses one time-series message in the window `[pos, end)`.
#[verifier::loop_isolation(false)]
fn parse_time_series(bytes: &Vec<u8>, pos: usize, end: usize) -> (r: Option<TimeSeries>)
    requires
        pos <= end <= bytes@.len(),
    ensures
        ({
            let s = parse_ts_loop(bytes@, pos as int, end as int, Seq::empty(), Seq::empty());
            match r {
                Some(ts) => s == Some(ts@),
                None => s is None,
            }
        }),
{
    let mut labels: Vec<Label> = Vec::new();
    let mut samples: Vec<Sample> = Vec::new();
    let mut p = pos;
    proof {
        assert(labels@.map_values(|l: Label| l@) =~= Seq::<LabelV>::empty());
        assert(samples@ =~= Seq::<Sample>::empty());
    }
    while p < end
        invariant
            pos <= p <= end,
            parse_ts_loop(bytes@, pos as int, end as int, Seq::empty(), Seq::empty())
                == parse_ts_loop(
                bytes@,
                p as int,
                end as int,
                labels@.map_values(|l: Label| l@),
                samples@,
            ),
        decreases end - p,
    {
        let (key, p1) = match read_varint(bytes, p) {
            Some(x) => x,
            None => {
                return None;
            },
        };
        if p1 > end || p1 <= p {
            return None;
        }
        let field = key / 8;
        let wire = key % 8;
        if wire == 2 && (field == 1 || field == 2) {
            let (lo, hi) = match read_len(bytes, p1, end) {
                Some(x) => x,
                None => {
                    return None;
                },
            };
            if hi <= p {
                return None;
            }
            if field == 1 {
                let l = match parse_label(bytes, lo, hi) {
                    Some(x) => x,
                    None => {
                        return None;
                    },
                };
                let ghost before = labels@;
                labels.push(l);
                proof {
                    assert(labels@.map_values(|l: Label| l@) =~= before.map_values(
                        |l: Label| l@,
                    ).push(labels@[before.len() as int]@));
                }
            } else {
                let smp = match parse_sample(bytes, lo, hi) {
                    Some(x) => x,
                    None => {
                        return None;
                    },
                };
                samples.push(smp);
            }
            p = hi;
        } else {
            let p2 = match skip_field(bytes, p1, end, wire) {
                Some(x) => x,
                None => {
                    return None;
                },
            };
            if p2 <= p {
                return None;
            }
            p = p2;
        }
    }
    let r = TimeSeries { labels, samples };
    proof {
        assert(r@.labels == labels@.map_values(|l: Label| l@));
    }
    Some(r)
}

/// Parses one metadata message in the window `[pos, end)`.
#[verifier::loop_isolation(false)]
fn parse_metadata(bytes: &Vec<u8>, pos: usize, end: usize) -> (r: Option<MetricMetadata>)
    requires
        pos <= end <= bytes@.len(),
    ensures
        ({
            let s = parse_md_loop(
                bytes@,
                pos as int,
                end as int,
                0,
                Seq::empty(),
                Seq::empty(),
                Seq::empty(),
            );
            match r {
                Some(m) => s == Some(m@),
                None => s is None,
            }
        }),
{
    let mut metric_type: u64 = 0;
    let mut family = String::new();
    let mut help = String::new();
    let mut unit = String::new();
    let mut p = pos;
    while p < end
        invariant
            pos <= p <= end,
            parse_md_loop(
                bytes@,
                pos as int,
                end as int,
                0,
                Seq::empty(),
                Seq::empty(),
                Seq::empty(),
            ) == parse_md_loop(
                bytes@,
                p as int,
                end as int,
                metric_type,
                family@,
                help@,
                unit@,
            ),
        decreases end - p,
    {
        let (key, p1) = match read_varint(bytes, p) {
            Some(x) => x,
            None => {
                return None;
            },
        };
        if p1 > end || p1 <= p {
            return None;
        }
        let field = key / 8;
        let wire = key % 8;
        if field == 1 && wire == 0 {
            let (v, p2) = match read_varint(bytes, p1) {
                Some(x) => x,
                None => {
                    return None;
                },
            };
            if p2 > end || p2 <= p {
                return None;
            }
            metric_type = v;
            p = p2;
        } else if wire == 2 && (field == 2 || field == 4 || field == 5) {
            let (lo, hi) = match read_len(bytes, p1, end) {
                Some(x) => x,
                None => {
                    return None;
                },
            };
            if hi <= p {
                return None;
            }
            let sub = sub_bytes(bytes, lo, hi);
            let text = match bytes_to_string(sub) {
                Some(t) => t,
                None => {
                    return None;
                },
            };
            if field == 2 {
                family = text;
            } else if field == 4 {
                help = text;
            } else {
                unit = text;
            }
            p = hi;
        } else {
            let p2 = match skip_field(bytes, p1, end, wire) {
                Some(x) => x,
                None => {
                    return None;
                },
            };
            if p2 <= p {
                return None;
            }
            p = p2;
        }
    }
    Some(MetricMetadata { metric_type, metric_family_name: family, help, unit })
}

/// Parses a whole protobuf-encoded request.
#[verifier::loop_isolation(false)]
pub fn parse_write_request_bytes(bytes: &Vec<u8>) -> (r: Option<WriteRequest>)
    ensures
        ({
            let s = spec_parse_write_request(bytes@);
            match r {
                Some(w) => s == Some(w@),
                None => s is None,
            }
        }),
{
    let end = bytes.len();
    let mut timeseries: Vec<TimeSeries> = Vec::new();
    let mut metadata: Vec<MetricMetadata> = Vec::new();
    let mut p: usize = 0;
    proof {
        assert(timeseries@.map_values(|t: TimeSeries| t@) =~= Seq::<TimeSeriesV>::empty());
        assert(metadata@.map_values(|m: MetricMetadata| m@) =~= Seq::<
            MetricMetadataV,
        >::empty());
    }
    while p < end
        invariant
            p <= end,
            end == bytes@.len(),
            spec_parse_write_request(bytes@) == parse_wr_loop(
                bytes@,
                p as int,
                end as int,
                timeseries@.map_values(|t: TimeSeries| t@),
                metadata@.map_values(|m: MetricMetadata| m@),
            ),
        decreases end - p,
    {
        let (key, p1) = match read_varint(bytes, p) {
            Some(x) => x,
            None => {
                return None;
            },
        };
        if p1 > end || p1 <= p {
            return None;
        }
        let field = key / 8;
        let wire = key % 8;
        if wire == 2 && (field == 1 || field == 3) {
            let (lo, hi) = match read_len(bytes, p1, end) {
                Some(x) => x,
                None => {
                    return None;
                },
            };
            if hi <= p {
                return None;
            }
            if field == 1 {
                let ts = match parse_time_series(bytes, lo, hi) {
                    Some(x) => x,
                    None => {
                        return None;
                    },
                };
                let ghost before = timeseries@;
                timeseries.push(ts);
                proof {
                    assert(timeseries@.map_values(|t: TimeSeries| t@) =~= before.map_values(
                        |t: TimeSeries| t@,
                    ).push(timeseries@[before.len() as int]@));
                }
            } else {
                let md = match parse_metadata(bytes, lo, hi) {
                    Some(x) => x,
                    None => {
                        return None;
                    },
                };
                let ghost before = metadata@;
                metadata.push(md);
                proof {
                    assert(metadata@.map_values(|m: MetricMetadata| m@) =~= before.map_values(
                        |m: MetricMetadata| m@,
                    ).push(metadata@[before.len() as int]@));
                }
            }
            p = hi;
        } else {
            let p2 = match skip_field(bytes, p1, end, wire) {
                Some(x) => x,
                None => {
                    return None;
                },
            };
            if p2 <= p {
                return None;
            }
            p = p2;
        }
    }
    let r = WriteRequest { timeseries, metadata };
    Some(r)
}

/// Why a request body was rejected.
#[derive(Clone, Copy, Debug, PartialEq, Eq)]
pub enum BadPayload {
    /// The body is not valid snappy-raw data.
    SnappyError,
    /// The decompressed body is not a valid protobuf request.
    ProtobufError,
    /// The decompressed body exceeds the content-length ceiling.
    OversizedPayload,
}

impl BadPayload {
    /// A short text for the HTTP error body.
    pub fn message(&self) -> &'static str {
        match self {
            BadPayload::SnappyError => "snappy decompression failed",
            BadPayload::ProtobufError => "invalid protobuf payload",
            BadPayload::OversizedPayload => "decompressed payload too large",
        }
    }
}

/// Decodes one request body: snappy-raw decompression, a ceiling check on
/// the decompressed size, then the protobuf parse.
pub fn decode_write_request(body: &Vec<u8>, content_length_limit: u64) -> (r: Result<
    WriteRequest,
    BadPayload,
>)
    ensures
        match snap_decompress(body@) {
            None => r == Err::<WriteRequest, BadPayload>(BadPayload::SnappyError),
            Some(raw) => if raw.len() > content_length_limit {
                r == Err::<WriteRequest, BadPayload>(BadPayload::OversizedPayload)
            } else {
                match spec_parse_write_request(raw) {
                    None => r == Err::<WriteRequest, BadPayload>(BadPayload::ProtobufError),
                    Some(w) => r is Ok && r.unwrap()@ == w,
                }
            },
        },
{
    let raw = match snappy_decompress(body) {
        Some(v) => v,
        None => {
            return Err(BadPayload::SnappyError);
        },
    };
    if raw.len() as u64 > content_length_limit {
        return Err(BadPayload::OversizedPayload);
    }
    match parse_write_request_bytes(&raw) {
        Some(w) => Ok(w),
        None => Err(BadPayload::ProtobufError),
    }
}

/// Encodes and compresses a whole request for the upstream POST; `None`
/// when the encoding is too large for the snappy format.
pub fn encode_write_request(write_request: &WriteRequest) -> (r: Option<Vec<u8>>)
    ensures
        ({
            let n = spec_encode_write_request(write_request@).len();
            match r {
                Some(v) => 32 + n + n / 6 <= 0xffff_ffff && v@ == snap_compress(
                    spec_encode_write_request(write_request@),
                ),
                None => 32 + n + n / 6 > 0xffff_ffff,
            }
        }),
{
    let raw = encode_write_request_bytes(write_request);
    let n = raw.len() as u64;
    if n > 0xffff_ffff || 32 + n + n / 6 > 0xffff_ffff {
        return None;
    }
    Some(snappy_compress(&raw))
}

} // verus!
