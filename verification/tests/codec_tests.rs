//! The codec: encode/decode round trips and the rejection cases.

use open_metrics_mt::codec::BadPayload;
use open_metrics_mt::codec::decode_write_request;
use open_metrics_mt::codec::encode_write_request;
use open_metrics_mt::codec::encode_write_request_bytes;
use open_metrics_mt::codec::parse_write_request_bytes;
use open_metrics_mt::model::Label;
use open_metrics_mt::model::MetricMetadata;
use open_metrics_mt::model::Sample;
use open_metrics_mt::model::TimeSeries;
use open_metrics_mt::model::WriteRequest;

fn sample_request() -> WriteRequest {
    WriteRequest {
        timeseries: vec![
            TimeSeries {
                labels: vec![
                    Label { name: String::from("__name__"), value: String::from("up") },
                    Label { name: String::from("tid"), value: String::from("münchen") },
                ],
                samples: vec![
                    Sample { value_bits: 0x3FF0000000000000, timestamp_ms: 1600000000000 },
                    Sample { value_bits: 0, timestamp_ms: -5 },
                ],
            },
            TimeSeries { labels: vec![], samples: vec![] },
        ],
        metadata: vec![MetricMetadata {
            metric_type: 2,
            metric_family_name: String::from("up"),
            help: String::from("whether the target is up"),
            unit: String::from(""),
        }],
    }
}

#[test]
fn protobuf_round_trip_preserves_the_request() {
    let request = sample_request();
    let raw = encode_write_request_bytes(&request);
    let back = parse_write_request_bytes(&raw).unwrap();
    assert_eq!(back, request);
}

#[test]
fn compressed_round_trip_preserves_the_request() {
    let request = sample_request();
    let body = encode_write_request(&request).unwrap();
    let back = decode_write_request(&body, 100 * 1024 * 1024).unwrap();
    assert_eq!(back, request);
}

#[test]
fn compression_shrinks_a_repetitive_request() {
    let request = WriteRequest {
        timeseries: vec![TimeSeries {
            labels: vec![Label {
                name: String::from("aaaaaaaaaaaaaaaaaaaaaaaaaaaaaaaaaaaaaaaaaaaaaaaa"),
                value: String::from("aaaaaaaaaaaaaaaaaaaaaaaaaaaaaaaaaaaaaaaaaaaaaaaa"),
            }],
            samples: vec![],
        }],
        metadata: vec![],
    };
    let raw = encode_write_request_bytes(&request);
    let body = encode_write_request(&request).unwrap();
    assert!(body.len() < raw.len());
}

#[test]
fn garbage_is_rejected_as_snappy_error() {
    let body = vec![0xff, 0xff, 0xff, 0xff, 0xff, 0xff];
    assert_eq!(decode_write_request(&body, 1024), Err(BadPayload::SnappyError));
}

#[test]
fn an_oversized_body_is_rejected() {
    let request = sample_request();
    let body = encode_write_request(&request).unwrap();
    assert_eq!(decode_write_request(&body, 1), Err(BadPayload::OversizedPayload));
}

#[test]
fn a_compressed_non_protobuf_body_is_rejected() {
    // Valid snappy framing around bytes that are not a protobuf message:
    // a lone key announcing a length-delimited field with no data.
    let inner = vec![0x0au8, 0x05];
    let body = snap::raw::Encoder::new().compress_vec(&inner).unwrap();
    assert_eq!(decode_write_request(&body, 1024), Err(BadPayload::ProtobufError));
}

#[test]
fn an_empty_request_round_trips() {
    let request = WriteRequest { timeseries: vec![], metadata: vec![] };
    let body = encode_write_request(&request).unwrap();
    let back = decode_write_request(&body, 0).unwrap();
    assert_eq!(back.timeseries.len(), 0);
    assert_eq!(back.metadata.len(), 0);
}

#[test]
fn the_decoder_skips_unknown_fields() {
    // Field 15 (varint), then a regular series for tenant label routing.
    let request = sample_request();
    let mut raw = vec![0x78u8, 0x2a];
    raw.extend_from_slice(&encode_write_request_bytes(&request));
    let back = parse_write_request_bytes(&raw).unwrap();
    assert_eq!(back, request);
}

#[test]
fn invalid_label_utf8_is_rejected() {
    // A series whose label name bytes are not UTF-8.
    let raw = vec![
        0x0au8, 0x06, // series, 6 bytes
        0x0a, 0x04, // label, 4 bytes
        0x0a, 0x02, 0xff, 0xfe, // name, 2 invalid bytes
    ];
    assert!(parse_write_request_bytes(&raw).is_none());
}
