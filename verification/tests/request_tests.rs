use s3_sink_core::batch::{Batch, BatcherSettings};
use s3_sink_core::buffer::bytes_mut_freeze;
use s3_sink_core::event::{EncodedEvent, Event, EventKind};
use s3_sink_core::framing::{Framing, prepare_payload};
use s3_sink_core::metadata::metadata_for;
use s3_sink_core::partition::PartitionKey;
use s3_sink_core::request::{Compression, S3Options, S3RequestOptions, object_key_for};
use s3_sink_core::sink::S3Sink;

fn event(id: u64, kind: EventKind, prefix: &str) -> Event {
    Event {
        finalizer_id: id,
        kind,
        key_prefix: Some(prefix.to_string()),
        ssekms_key_id: None,
    }
}

fn encoded(id: u64, kind: EventKind, prefix: &str, body: &[u8]) -> EncodedEvent {
    EncodedEvent { event: event(id, kind, prefix), encoded: body.to_vec() }
}

fn framing(prefix: &[u8], sep: &[u8], suffix: &[u8]) -> Framing {
    Framing { prefix: prefix.to_vec(), separator: sep.to_vec(), suffix: suffix.to_vec() }
}

fn options(bucket: &str, append_uuid: bool, extension: Option<&str>, compression: Compression)
    -> S3RequestOptions {
    S3RequestOptions {
        bucket: bucket.to_string(),
        filename_time_format: "%s".to_string(),
        filename_append_uuid: append_uuid,
        filename_extension: extension.map(|e| e.to_string()),
        api_options: S3Options { ssekms_key_id: None, storage_class: Some("STANDARD".to_string()) },
        compression,
    }
}

#[test]
fn framing_multi_event_payload() {
    // three bodies: one prefix, two separators, one suffix
    let f = framing(b"[", b",", b"]");
    let events = vec![
        encoded(1, EventKind::Log, "A", b"x"),
        encoded(2, EventKind::Log, "A", b"y"),
        encoded(3, EventKind::Log, "A", b"z"),
    ];
    let payload = prepare_payload(&f, &events);
    assert_eq!(&payload[..], &b"[x,y,z]"[..]);
}

#[test]
fn framing_single_event_no_separator() {
    let f = framing(b"<", b"|", b">");
    let events = vec![encoded(1, EventKind::Log, "A", b"only")];
    let payload = prepare_payload(&f, &events);
    assert_eq!(&payload[..], &b"<only>"[..]);
}

#[test]
fn framing_empty_batch_is_prefix_suffix() {
    let f = framing(b"{", b",", b"}");
    let events: Vec<EncodedEvent> = Vec::new();
    let payload = prepare_payload(&f, &events);
    assert_eq!(&payload[..], &b"{}"[..]);
}

#[test]
fn framing_separator_count_formula() {
    // n bodies of 2 bytes with a 1-byte separator: len = n*2 + (n-1)
    let f = framing(b"", b"\n", b"");
    let events: Vec<EncodedEvent> =
        (0..5u64).map(|i| encoded(i + 1, EventKind::Log, "A", b"ab")).collect();
    let payload = prepare_payload(&f, &events);
    assert_eq!(payload.len(), 5 * 2 + 4);
}

#[test]
fn metadata_counts_and_sizes() {
    let events = vec![
        encoded(1, EventKind::Log, "A", b"aaaa"),
        encoded(2, EventKind::Metric, "A", b"bb"),
        encoded(3, EventKind::Log, "A", b"c"),
    ];
    let md = metadata_for(&events, 9, 9);
    assert_eq!(md.event_count, 3);
    assert_eq!(md.events_encoded_size, 7);
    assert_eq!(md.payload_size, 9);
    assert_eq!(md.transmitted_size, 9);
    assert_eq!(md.grouped.log_count, 2);
    assert_eq!(md.grouped.log_bytes, 5);
    assert_eq!(md.grouped.metric_count, 1);
    assert_eq!(md.grouped.metric_bytes, 2);
    assert_eq!(md.grouped.trace_count, 0);
    assert_eq!(md.grouped.trace_bytes, 0);
}

#[test]
fn object_key_with_token() {
    let key = object_key_for(
        &"logs/".to_string(),
        &"20240101".to_string(),
        Some(&"tok".to_string()),
        "log",
    );
    assert_eq!(key, "logs/20240101-tok.log");
}

#[test]
fn object_key_without_token() {
    let key = object_key_for(&"logs/".to_string(), &"20240101".to_string(), None, "log.gz");
    assert_eq!(key, "logs/20240101.log.gz");
}

#[test]
fn compression_extensions_and_encoding() {
    // the identity scheme: payload untouched, no content-encoding claimed
    assert_eq!(Compression::Uncompressed.extension(), "log");
    assert_eq!(Compression::Uncompressed.content_encoding(), None);
}

#[test]
fn split_input_extracts_finalizers() {
    let opts = options("bucket", false, None, Compression::Uncompressed);
    let key = PartitionKey { key_prefix: "p/".to_string(), ssekms_key_id: None };
    let events = vec![
        encoded(10, EventKind::Log, "p/", b"a"),
        encoded(11, EventKind::Log, "p/", b"b"),
    ];
    let md = opts.split_input(key, &events);
    assert_eq!(md.s3_key, "p/");
    assert_eq!(md.finalizers, vec![10, 11]);
}

#[test]
fn build_request_with_fixed_timestamp() {
    let opts = options("my-bucket", false, None, Compression::Uncompressed);
    let key = PartitionKey {
        key_prefix: "date/".to_string(),
        ssekms_key_id: Some("kms-1".to_string()),
    };
    let events = vec![encoded(1, EventKind::Log, "date/", b"hello")];
    let md = opts.split_input(key, &events);
    let f = framing(b"", b"\n", b"");
    let payload = prepare_payload(&f, &events);
    let n = payload.len();
    let rm = metadata_for(&events, n, n);
    let body = bytes_mut_freeze(payload);
    let req = opts.build_request_with(md, rm, body, &"19991231".to_string(), None);
    assert_eq!(req.bucket, "my-bucket");
    assert_eq!(req.metadata.s3_key, "date/19991231.log");
    assert_eq!(&req.body[..], &b"hello"[..]);
    assert_eq!(req.content_encoding, None);
    assert_eq!(req.options.ssekms_key_id.as_deref(), Some("kms-1"));
    assert_eq!(req.options.storage_class.as_deref(), Some("STANDARD"));
    assert_eq!(req.request_metadata.event_count, 1);
    assert_eq!(req.request_metadata.payload_size, 5);
    assert_eq!(req.metadata.finalizers, vec![1]);
}

#[test]
fn build_request_with_extension_override_and_token() {
    let opts = options("b", true, Some("jsonl"), Compression::Uncompressed);
    let key = PartitionKey { key_prefix: "k/".to_string(), ssekms_key_id: None };
    let events = vec![encoded(2, EventKind::Trace, "k/", b"t")];
    let md = opts.split_input(key, &events);
    let f = framing(b"", b"\n", b"");
    let payload = prepare_payload(&f, &events);
    let n = payload.len();
    let rm = metadata_for(&events, n, n);
    let body = bytes_mut_freeze(payload);
    let req = opts.build_request_with(md, rm, body, &"ts".to_string(), Some(&"u-u".to_string()));
    assert_eq!(req.metadata.s3_key, "k/ts-u-u.jsonl");
    assert_eq!(req.content_encoding, None);
}

#[test]
fn process_batch_builds_full_request() {
    // exercises the wall-clock and uniqueness-token paths end to end
    let sink = S3Sink {
        batcher_settings: BatcherSettings { max_events: 10, max_bytes: 1024, timeout_ms: 1000 },
        framing: framing(b"", b"\n", b""),
        options: options("bucket", true, None, Compression::Uncompressed),
    };
    let key = PartitionKey { key_prefix: "pfx/".to_string(), ssekms_key_id: None };
    let events = vec![
        encoded(1, EventKind::Log, "pfx/", b"one"),
        encoded(2, EventKind::Log, "pfx/", b"two"),
    ];
    let batch = Batch { key, events };
    let req = sink.process_batch(batch).expect("a plain time format renders");
    assert_eq!(&req.body[..], &b"one\ntwo"[..]);
    assert_eq!(req.request_metadata.event_count, 2);
    assert_eq!(req.request_metadata.payload_size, 7);
    assert_eq!(req.request_metadata.events_encoded_size, 6);
    assert_eq!(req.metadata.finalizers, vec![1, 2]);
    assert!(req.metadata.s3_key.starts_with("pfx/"));
    assert!(req.metadata.s3_key.ends_with(".log"));
    // prefix + unix seconds + "-" + 36 uuid chars + "." + "log"
    let tail = &req.metadata.s3_key["pfx/".len()..];
    let dash = tail.find('-').expect("token separator present");
    assert_eq!(tail.len() - dash - 1, 36 + 1 + 3);
}

#[test]
fn build_requests_one_per_batch() {
    let sink = S3Sink {
        batcher_settings: BatcherSettings { max_events: 10, max_bytes: 1024, timeout_ms: 1000 },
        framing: framing(b"", b"\n", b""),
        options: options("bucket", false, None, Compression::Uncompressed),
    };
    let batches = vec![
        Batch {
            key: PartitionKey { key_prefix: "a/".to_string(), ssekms_key_id: None },
            events: vec![encoded(1, EventKind::Log, "a/", b"x")],
        },
        Batch {
            key: PartitionKey { key_prefix: "b/".to_string(), ssekms_key_id: None },
            events: vec![encoded(2, EventKind::Log, "b/", b"y")],
        },
    ];
    let reqs = sink.build_requests(batches).expect("a plain time format renders");
    assert_eq!(reqs.len(), 2);
    assert_eq!(reqs[0].metadata.finalizers, vec![1]);
    assert_eq!(reqs[1].metadata.finalizers, vec![2]);
    assert!(reqs[0].metadata.s3_key.starts_with("a/"));
    assert!(reqs[1].metadata.s3_key.starts_with("b/"));
}

#[test]
fn process_batch_rejects_unrenderable_time_format() {
    let mut opts = options("bucket", false, None, Compression::Uncompressed);
    opts.filename_time_format = "%!".to_string();
    let sink = S3Sink {
        batcher_settings: BatcherSettings { max_events: 10, max_bytes: 1024, timeout_ms: 1000 },
        framing: framing(b"", b"\n", b""),
        options: opts,
    };
    let key = PartitionKey { key_prefix: "p/".to_string(), ssekms_key_id: None };
    let batch = Batch { key, events: vec![encoded(1, EventKind::Log, "p/", b"x")] };
    assert!(sink.process_batch(batch).is_none());
}
