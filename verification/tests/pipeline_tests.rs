use s3_sink_core::batch::{Batch, Batcher, BatcherSettings};
use s3_sink_core::framing::Framing;
use s3_sink_core::partition::PartitionKey;
use s3_sink_core::request::{Compression, S3Options, S3RequestOptions};
use s3_sink_core::sink::S3Sink;
use s3_sink_core::driver::{
    DeliveryMetrics, DeliveryResponse, Finalization, RequestState, complete_request,
    drive_requests, finalize_all, settle, submit,
};
use s3_sink_core::event::{EncodedEvent, Event, EventKind, partition};
use s3_sink_core::pipeline::{DropReason, PipelineInput, run_batching};

fn event(id: u64, prefix: Option<&str>) -> Event {
    Event {
        finalizer_id: id,
        kind: EventKind::Log,
        key_prefix: prefix.map(|p| p.to_string()),
        ssekms_key_id: None,
    }
}

fn input(id: u64, prefix: Option<&str>, body: Option<&[u8]>) -> PipelineInput {
    PipelineInput { event: event(id, prefix), encoded: body.map(|b| b.to_vec()) }
}

fn settings(max_events: usize, max_bytes: usize, timeout_ms: u64) -> BatcherSettings {
    BatcherSettings { max_events, max_bytes, timeout_ms }
}

#[test]
fn scenario_three_events_two_keys() {
    // keys [A, A, B] with a count bound of two: the A batch flushes at the
    // bound, the B batch at end of input; three finalizer firings in all.
    let inputs = vec![
        input(1, Some("A"), Some(b"e1")),
        input(2, Some("A"), Some(b"e2")),
        input(3, Some("B"), Some(b"e3")),
    ];
    let out = run_batching(inputs, settings(2, 1024, 1000), 0);
    assert_eq!(out.dropped.len(), 0);
    assert_eq!(out.batches.len(), 2);
    assert_eq!(out.batches[0].key.key_prefix, "A");
    assert_eq!(out.batches[0].events.len(), 2);
    assert_eq!(out.batches[0].events[0].event.finalizer_id, 1);
    assert_eq!(out.batches[0].events[1].event.finalizer_id, 2);
    assert_eq!(out.batches[1].key.key_prefix, "B");
    assert_eq!(out.batches[1].events.len(), 1);
    assert_eq!(out.batches[1].events[0].event.finalizer_id, 3);
    // a stub service that always succeeds: every finalizer fires success
    let mut fired: Vec<Finalization> = Vec::new();
    for b in &out.batches {
        let ids: Vec<u64> = b.events.iter().map(|e| e.event.finalizer_id).collect();
        fired.extend(finalize_all(&ids, true));
    }
    assert_eq!(fired.len(), 3);
    let mut seen: Vec<u64> = fired.iter().map(|f| f.finalizer_id).collect();
    seen.sort();
    assert_eq!(seen, vec![1, 2, 3]);
    assert!(fired.iter().all(|f| f.success));
}

#[test]
fn no_loss_no_duplication_with_drops() {
    // every input fires exactly once over drops plus batched events
    let inputs = vec![
        input(1, Some("A"), Some(b"a")),
        input(2, None, Some(b"b")),
        input(3, Some("A"), None),
        input(4, Some("B"), Some(b"d")),
    ];
    let out = run_batching(inputs, settings(10, 1024, 1000), 0);
    assert_eq!(out.dropped.len(), 2);
    assert_eq!(out.dropped[0].finalizer_id, 2);
    assert_eq!(out.dropped[0].reason, DropReason::Unroutable);
    assert_eq!(out.dropped[1].finalizer_id, 3);
    assert_eq!(out.dropped[1].reason, DropReason::EncodeFailed);
    let batched: usize = out.batches.iter().map(|b| b.events.len()).sum();
    assert_eq!(batched + out.dropped.len(), 4);
    let mut ids: Vec<u64> = out.dropped.iter().map(|d| d.finalizer_id).collect();
    for b in &out.batches {
        ids.extend(b.events.iter().map(|e| e.event.finalizer_id));
    }
    ids.sort();
    assert_eq!(ids, vec![1, 2, 3, 4]);
}

#[test]
fn encode_failure_isolated_from_siblings() {
    // an encode failure in the middle does not keep siblings of the same
    // window from batching
    let inputs = vec![
        input(1, Some("A"), Some(b"a1")),
        input(2, Some("A"), None),
        input(3, Some("A"), Some(b"a3")),
    ];
    let out = run_batching(inputs, settings(2, 1024, 1000), 0);
    assert_eq!(out.dropped.len(), 1);
    assert_eq!(out.dropped[0].reason, DropReason::EncodeFailed);
    assert_eq!(out.batches.len(), 1);
    assert_eq!(out.batches[0].events.len(), 2);
    assert_eq!(out.batches[0].events[0].event.finalizer_id, 1);
    assert_eq!(out.batches[0].events[1].event.finalizer_id, 3);
}

#[test]
fn partition_purity_and_order() {
    // interleaved keys: each batch holds one key only, in arrival order
    let inputs = vec![
        input(1, Some("A"), Some(b"1")),
        input(2, Some("B"), Some(b"2")),
        input(3, Some("A"), Some(b"3")),
        input(4, Some("B"), Some(b"4")),
        input(5, Some("A"), Some(b"5")),
    ];
    let out = run_batching(inputs, settings(100, 1024, 1000), 0);
    assert_eq!(out.batches.len(), 2);
    for b in &out.batches {
        let mut last_id = 0u64;
        for e in &b.events {
            assert_eq!(e.event.key_prefix.as_deref(), Some(b.key.key_prefix.as_str()));
            assert!(e.event.finalizer_id > last_id);
            last_id = e.event.finalizer_id;
        }
    }
    assert_eq!(
        out.batches[0].events.iter().map(|e| e.event.finalizer_id).collect::<Vec<_>>(),
        vec![1, 3, 5]
    );
    assert_eq!(
        out.batches[1].events.iter().map(|e| e.event.finalizer_id).collect::<Vec<_>>(),
        vec![2, 4]
    );
}

#[test]
fn drain_on_completion() {
    // ten distinct keys, none at a bound: all flush at end of input
    let inputs: Vec<PipelineInput> = (0..10u64)
        .map(|i| input(i + 1, Some(&format!("k{}", i)), Some(b"x")))
        .collect();
    let out = run_batching(inputs, settings(100, 1024, 1000), 0);
    assert_eq!(out.dropped.len(), 0);
    assert_eq!(out.batches.len(), 10);
    assert!(out.batches.iter().all(|b| b.events.len() == 1));
}

#[test]
fn batcher_count_bound_flushes() {
    let mut batcher = Batcher::new(settings(2, 1024, 1000));
    let e1 = EncodedEvent { event: event(1, Some("A")), encoded: b"aa".to_vec() };
    let e2 = EncodedEvent { event: event(2, Some("A")), encoded: b"bb".to_vec() };
    let k1 = partition(&e1.event).unwrap();
    let k2 = partition(&e2.event).unwrap();
    assert!(batcher.push(k1, e1, 0).is_none());
    let b = batcher.push(k2, e2, 0).expect("count bound must flush");
    assert_eq!(b.events.len(), 2);
    assert_eq!(batcher.finish().len(), 0);
}

#[test]
fn batcher_byte_bound_flushes() {
    let mut batcher = Batcher::new(settings(100, 4, 1000));
    let e1 = EncodedEvent { event: event(1, Some("A")), encoded: b"abc".to_vec() };
    let e2 = EncodedEvent { event: event(2, Some("A")), encoded: b"de".to_vec() };
    let k1 = partition(&e1.event).unwrap();
    let k2 = partition(&e2.event).unwrap();
    assert!(batcher.push(k1, e1, 0).is_none());
    let b = batcher.push(k2, e2, 0).expect("byte bound must flush");
    assert_eq!(b.events.len(), 2);
}

#[test]
fn batcher_oversized_event_flushes_alone() {
    let mut batcher = Batcher::new(settings(100, 4, 1000));
    let e1 = EncodedEvent { event: event(1, Some("A")), encoded: b"abcdefgh".to_vec() };
    let k1 = partition(&e1.event).unwrap();
    let b = batcher.push(k1, e1, 0).expect("oversized event flushes alone");
    assert_eq!(b.events.len(), 1);
    assert_eq!(batcher.finish().len(), 0);
}

#[test]
fn batcher_expire_flushes_only_due() {
    let mut batcher = Batcher::new(settings(100, 1024, 100));
    let e1 = EncodedEvent { event: event(1, Some("A")), encoded: b"a".to_vec() };
    let e2 = EncodedEvent { event: event(2, Some("B")), encoded: b"b".to_vec() };
    let k1 = partition(&e1.event).unwrap();
    let k2 = partition(&e2.event).unwrap();
    assert!(batcher.push(k1, e1, 0).is_none());
    assert!(batcher.push(k2, e2, 60).is_none());
    let none_due = batcher.expire(50);
    assert_eq!(none_due.len(), 0);
    let due = batcher.expire(110);
    assert_eq!(due.len(), 1);
    assert_eq!(due[0].key.key_prefix, "A");
    let rest = batcher.finish();
    assert_eq!(rest.len(), 1);
    assert_eq!(rest[0].key.key_prefix, "B");
}

#[test]
fn partition_is_deterministic_and_rejects_unroutable() {
    let e = event(7, Some("logs/"));
    let k1 = partition(&e).unwrap();
    let k2 = partition(&e).unwrap();
    assert_eq!(k1.key_prefix, k2.key_prefix);
    assert_eq!(k1.key_prefix, "logs/");
    assert!(partition(&event(8, None)).is_none());
}

#[test]
fn encoded_event_sizes() {
    let e = EncodedEvent { event: event(1, Some("A")), encoded: b"12345".to_vec() };
    assert_eq!(e.size_of(), 5);
    assert_eq!(e.allocated_bytes(), 5);
}

#[test]
fn driver_success_path() {
    let state = submit(RequestState::Built);
    let mut metrics = DeliveryMetrics::new();
    let response = DeliveryResponse { success: true, event_count: 3, byte_count: 20 };
    let finalizers = vec![1u64, 2, 3];
    let (done, fired) = complete_request(state, &finalizers, &response, &mut metrics);
    assert_eq!(done, RequestState::Acknowledged);
    assert_eq!(fired.len(), 3);
    assert!(fired.iter().all(|f| f.success));
    assert_eq!(metrics.events_delivered, 3);
    assert_eq!(metrics.bytes_delivered, 20);
}

#[test]
fn driver_failure_path() {
    let state = submit(RequestState::Built);
    let mut metrics = DeliveryMetrics::new();
    let response = DeliveryResponse { success: false, event_count: 2, byte_count: 9 };
    let finalizers = vec![4u64, 5];
    let (done, fired) = complete_request(state, &finalizers, &response, &mut metrics);
    assert_eq!(done, RequestState::Rejected);
    assert_eq!(fired.len(), 2);
    assert!(fired.iter().all(|f| !f.success));
    assert_eq!(metrics.events_delivered, 0);
    assert_eq!(metrics.bytes_delivered, 0);
}

#[test]
fn driver_settle_states() {
    assert_eq!(settle(RequestState::Submitted, true), RequestState::Acknowledged);
    assert_eq!(settle(RequestState::Submitted, false), RequestState::Rejected);
}

#[test]
fn drive_requests_settles_each_request_once() {
    let sink = S3Sink {
        batcher_settings: BatcherSettings { max_events: 10, max_bytes: 1024, timeout_ms: 1000 },
        framing: Framing {
            prefix: Vec::new(),
            separator: b"\n".to_vec(),
            suffix: Vec::new(),
        },
        options: S3RequestOptions {
            bucket: "b".to_string(),
            filename_time_format: "%s".to_string(),
            filename_append_uuid: false,
            filename_extension: None,
            api_options: S3Options { ssekms_key_id: None, storage_class: None },
            compression: Compression::Uncompressed,
        },
    };
    let batches = vec![
        Batch {
            key: PartitionKey { key_prefix: "a/".to_string(), ssekms_key_id: None },
            events: vec![
                EncodedEvent { event: event(1, Some("a/")), encoded: b"x".to_vec() },
                EncodedEvent { event: event(2, Some("a/")), encoded: b"y".to_vec() },
            ],
        },
        Batch {
            key: PartitionKey { key_prefix: "b/".to_string(), ssekms_key_id: None },
            events: vec![EncodedEvent { event: event(3, Some("b/")), encoded: b"z".to_vec() }],
        },
    ];
    let requests = sink.build_requests(batches).expect("a plain time format renders");
    let responses = vec![
        DeliveryResponse { success: true, event_count: 2, byte_count: 3 },
        DeliveryResponse { success: false, event_count: 1, byte_count: 1 },
    ];
    let mut metrics = DeliveryMetrics::new();
    let fired = drive_requests(&requests, &responses, &mut metrics);
    assert_eq!(fired.len(), 2);
    assert_eq!(fired[0].len(), 2);
    assert_eq!(fired[1].len(), 1);
    assert!(fired[0].iter().all(|f| f.success));
    assert!(fired[1].iter().all(|f| !f.success));
    let mut ids: Vec<u64> = fired.iter().flatten().map(|f| f.finalizer_id).collect();
    ids.sort();
    assert_eq!(ids, vec![1, 2, 3]);
    assert_eq!(metrics.events_delivered, 2);
    assert_eq!(metrics.bytes_delivered, 3);
}
