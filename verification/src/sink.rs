use vstd::prelude::*;
use bytes::BytesMut;
use crate::batch::{Batch, BatcherSettings};
use crate::buffer::{bytes_contents, bytes_mut_contents, bytes_mut_len, bytes_mut_freeze};
use crate::event::{EncodedEvent, EventKind, ids_of, sum_encoded};
use crate::framing::{Framing, bodies_of, framed};
use crate::metadata::{RequestMetadata, count_of_kind, bytes_of_kind, metadata_for};
use crate::partition::PartitionKey;
use crate::request::{S3Metadata, S3Request, S3RequestOptions, object_key_spec, opt_string_view, strftime_renders};
use crate::driver::Finalization;
use crate::pipeline::{
    PipelineInput, DroppedEvent, batching_post, dropped_ids, fired_ids, input_ids,
    lemma_finalize_exactly_once, total_finalizations,
};

verus! {

/// The batching sink: framing, batch bounds and request options for one
/// destination. The async plumbing around it hands events in and carries
/// built requests to the delivery service.
pub struct S3Sink {
    pub batcher_settings: BatcherSettings,
    pub framing: Framing,
    pub options: S3RequestOptions,
}

impl S3Sink {
    /// Concatenates a batch's encoded events into one framed payload.
    pub fn prepare_payload(&self, events: &Vec<EncodedEvent>) -> (r: BytesMut)
        ensures
            bytes_mut_contents(r) == framed(self.framing, bodies_of(events@)),
    {
        crate::framing::prepare_payload(&self.framing, events)
    }

    /// Prepares the data of one request: the routing metadata with the
    /// events' finalizer tickets, the aggregate counters computed before
    /// compression, and the framed payload.
    pub fn prepare_request_data(&self, partition_key: PartitionKey, events: &Vec<EncodedEvent>)
        -> (r: (S3Metadata, RequestMetadata, BytesMut))
        requires
            framed(self.framing, bodies_of(events@)).len() <= usize::MAX,
            sum_encoded(events@) <= usize::MAX,
        ensures
            r.0.partition_key == partition_key,
            r.0.s3_key@ == partition_key.key_prefix@,
            r.0.finalizers@ == ids_of(events@),
            r.1.event_count == events@.len(),
            r.1.events_encoded_size == sum_encoded(events@),
            r.1.payload_size == framed(self.framing, bodies_of(events@)).len(),
            r.1.transmitted_size == framed(self.framing, bodies_of(events@)).len(),
            r.1.grouped.log_count == count_of_kind(events@, EventKind::Log),
            r.1.grouped.log_bytes == bytes_of_kind(events@, EventKind::Log),
            r.1.grouped.metric_count == count_of_kind(events@, EventKind::Metric),
            r.1.grouped.metric_bytes == bytes_of_kind(events@, EventKind::Metric),
            r.1.grouped.trace_count == count_of_kind(events@, EventKind::Trace),
            r.1.grouped.trace_bytes == bytes_of_kind(events@, EventKind::Trace),
            bytes_mut_contents(r.2) == framed(self.framing, bodies_of(events@)),
    {
        let payload = self.prepare_payload(events);
        let payload_len = bytes_mut_len(&payload);
        let request_metadata = metadata_for(events, payload_len, payload_len);
        let s3metadata = self.options.split_input(partition_key, events);
        (s3metadata, request_metadata, payload)
    }

    /// How a built request relates to the batch it was built from.
    pub open spec fn request_for_batch(self, req: S3Request, b: Batch) -> bool {
        &&& bytes_contents(req.body) == framed(self.framing, bodies_of(b.events@))
        &&& req.bucket@ == self.options.bucket@
        &&& req.metadata.partition_key == b.key
        &&& req.metadata.finalizers@ == ids_of(b.events@)
        &&& req.request_metadata.event_count == b.events@.len()
        &&& req.request_metadata.events_encoded_size == sum_encoded(b.events@)
        &&& req.request_metadata.payload_size == framed(self.framing, bodies_of(b.events@)).len()
        &&& req.request_metadata.transmitted_size == framed(
            self.framing,
            bodies_of(b.events@),
        ).len()
        &&& req.request_metadata.grouped.log_count == count_of_kind(b.events@, EventKind::Log)
        &&& req.request_metadata.grouped.log_bytes == bytes_of_kind(b.events@, EventKind::Log)
        &&& req.request_metadata.grouped.metric_count == count_of_kind(
            b.events@,
            EventKind::Metric,
        )
        &&& req.request_metadata.grouped.metric_bytes == bytes_of_kind(
            b.events@,
            EventKind::Metric,
        )
        &&& req.request_metadata.grouped.trace_count == count_of_kind(b.events@, EventKind::Trace)
        &&& req.request_metadata.grouped.trace_bytes == bytes_of_kind(b.events@, EventKind::Trace)
        &&& exists|ts: Seq<char>, tok: Option<Seq<char>>|
            req.metadata.s3_key@ == object_key_spec(
                b.key.key_prefix@,
                ts,
                tok,
                self.options.extension_view(),
            ) && (tok is Some <==> self.options.filename_append_uuid)
        &&& (match req.content_encoding {
            Some(s) => self.options.compression.content_encoding_spec() == Some(s@),
            None => self.options.compression.content_encoding_spec() is None,
        })
        &&& opt_string_view(req.options.ssekms_key_id) == opt_string_view(b.key.ssekms_key_id)
        &&& opt_string_view(req.options.storage_class) == opt_string_view(
            self.options.api_options.storage_class,
        )
    }

    /// Turns one finished batch into a wire request: metadata first, then
    /// the framed payload, then the destination object key. Yields a
    /// request exactly when the configured time format renders.
    pub fn process_batch(&self, batch: Batch) -> (r: Option<S3Request>)
        requires
            framed(self.framing, bodies_of(batch.events@)).len() <= usize::MAX,
            sum_encoded(batch.events@) <= usize::MAX,
        ensures
            r is Some <==> strftime_renders(self.options.filename_time_format@),
            r matches Some(req) ==> self.request_for_batch(req, batch),
    {
        let ghost b0 = batch;
        let Batch { key, events } = batch;
        let (s3metadata, request_metadata, payload) = self.prepare_request_data(key, &events);
        let ghost md0 = s3metadata;
        let ghost rm0 = request_metadata;
        let body = bytes_mut_freeze(payload);
        let ghost body0 = body;
        match self.options.build_request(s3metadata, request_metadata, body) {
            None => None,
            Some(req) => {
                proof {
                    let (ts, tok): (Seq<char>, Option<Seq<char>>) = choose|
                        ts: Seq<char>,
                        tok: Option<Seq<char>>,
                    |
                        self.options.request_built(req, md0, rm0, body0, ts, tok) && (
                        tok is Some <==> self.options.filename_append_uuid);
                    assert(req.metadata.s3_key@ == object_key_spec(
                        b0.key.key_prefix@,
                        ts,
                        tok,
                        self.options.extension_view(),
                    ));
                }
                Some(req)
            },
        }
    }

    /// Builds one request per batch, in batch order; a batch never merges
    /// into another request, and none is skipped. Yields the requests
    /// exactly when the configured time format renders (or no batch needs
    /// one).
    pub fn build_requests(&self, batches: Vec<Batch>) -> (r: Option<Vec<S3Request>>)
        requires
            forall|i: int|
                0 <= i < batches@.len() ==> framed(
                    self.framing,
                    bodies_of((#[trigger] batches@[i]).events@),
                ).len() <= usize::MAX && sum_encoded(batches@[i].events@) <= usize::MAX,
        ensures
            r is Some <==> (batches@.len() == 0 || strftime_renders(
                self.options.filename_time_format@,
            )),
            r matches Some(reqs) ==> reqs@.len() == batches@.len() && forall|i: int|
                0 <= i < reqs@.len() ==> self.request_for_batch(
                    #[trigger] reqs@[i],
                    batches@[i],
                ),
    {
        let ghost orig = batches@;
        let mut rest = batches;
        let mut out: Vec<S3Request> = Vec::new();
        let mut k: usize = 0;
        let n: usize = rest.len();
        while rest.len() > 0
            invariant
                orig == batches@,
                k + rest@.len() == n,
                n == orig.len(),
                rest@ == orig.skip(k as int),
                out@.len() == k,
                forall|i: int|
                    0 <= i < orig.len() ==> framed(
                        self.framing,
                        bodies_of((#[trigger] orig[i]).events@),
                    ).len() <= usize::MAX && sum_encoded(orig[i].events@) <= usize::MAX,
                forall|l: int|
                    0 <= l < k ==> self.request_for_batch(#[trigger] out@[l], orig[l]),
                k > 0 ==> strftime_renders(self.options.filename_time_format@),
            decreases rest@.len(),
        {
            let b = rest.remove(0);
            proof {
                assert(b == orig[k as int]);
                assert(rest@ =~= orig.skip(k + 1 as int));
            }
            match self.process_batch(b) {
                None => {
                    return None;
                },
                Some(req) => {
                    out.push(req);
                },
            }
            k += 1;
        }
        Some(out)
    }
}

/// End-to-end no loss, no duplication: a full batching run, one request
/// per batch, and one settlement per request fire each arriving event's
/// finalizer exactly once — the dropped tickets together with the fired
/// tickets are exactly the arriving tickets, and the firings plus the
/// drops number exactly the inputs.
pub proof fn lemma_pipeline_finalizes_each_event(
    inputs: Seq<PipelineInput>,
    settings: BatcherSettings,
    dropped: Seq<DroppedEvent>,
    batches: Seq<Batch>,
    sink: S3Sink,
    requests: Seq<S3Request>,
    fired: Seq<Seq<Finalization>>,
)
    requires
        batching_post(inputs, settings, dropped, batches),
        requests.len() == batches.len(),
        forall|i: int|
            0 <= i < requests.len() ==> sink.request_for_batch(#[trigger] requests[i], batches[i]),
        fired.len() == requests.len(),
        forall|i: int|
            0 <= i < fired.len() ==> (#[trigger] fired[i]).len()
                == requests[i].metadata.finalizers@.len(),
        forall|i: int, l: int|
            0 <= i < fired.len() && 0 <= l < fired[i].len() ==> (
            #[trigger] fired[i][l]).finalizer_id == requests[i].metadata.finalizers@[l],
    ensures
        dropped.len() + total_finalizations(fired) == inputs.len(),
        dropped_ids(dropped).add(fired_ids(fired)) == input_ids(inputs),
{
    assert forall|i: int| 0 <= i < fired.len() implies (#[trigger] fired[i]).len()
        == batches[i].events@.len() by {
        assert(sink.request_for_batch(requests[i], batches[i]));
        assert(requests[i].metadata.finalizers@ == ids_of(batches[i].events@));
    }
    assert forall|i: int, l: int|
        0 <= i < fired.len() && 0 <= l < fired[i].len() implies (
    #[trigger] fired[i][l]).finalizer_id == batches[i].events@[l].event.finalizer_id by {
        assert(sink.request_for_batch(requests[i], batches[i]));
        assert(requests[i].metadata.finalizers@[l] == ids_of(batches[i].events@)[l]);
    }
    lemma_finalize_exactly_once(inputs, settings, dropped, batches, fired);
}

} // verus!
