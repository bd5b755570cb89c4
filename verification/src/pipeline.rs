use vstd::prelude::*;
use vstd::multiset::Multiset;
use crate::batch::{
    Batch, Batcher, BatcherSettings, OpenBatch, at_bound, open_for_key, open_count,
    lemma_open_for_key_at, lemma_open_for_key_absent,
};
use crate::event::{EncodedEvent, route_of, sum_encoded, lemma_sum_encoded_push};
use crate::partition::PartitionKeyV;
use crate::driver::Finalization;

verus! {

/// Why an event left the pipeline before batching.
#[derive(Clone, Copy, PartialEq, Eq, Structural, Debug)]
pub enum DropReason {
    EncodeFailed,
    Unroutable,
}

/// An event dropped before batching; its finalizer fires with a failure
/// outcome instead of travelling on a request.
#[derive(Clone, Copy, PartialEq, Eq, Structural, Debug)]
pub struct DroppedEvent {
    pub finalizer_id: u64,
    pub reason: DropReason,
}

/// One arrival at the pipeline: the original event together with the
/// encoder's outcome for its transformed copy (`None` when encoding failed;
/// no partial bytes are ever forwarded).
pub struct PipelineInput {
    pub event: crate::event::Event,
    pub encoded: Option<Vec<u8>>,
}

/// An input enters a batch only when it encoded and routes somewhere.
pub open spec fn input_ok(x: PipelineInput) -> bool {
    x.encoded is Some && route_of(x.event@) is Some
}

/// The events a prefix of inputs drops, in arrival order.
pub open spec fn drops_of(inputs: Seq<PipelineInput>) -> Seq<DroppedEvent>
    decreases inputs.len(),
{
    if inputs.len() == 0 {
        Seq::<DroppedEvent>::empty()
    } else if inputs.last().encoded is None {
        drops_of(inputs.drop_last()).push(
            DroppedEvent {
                finalizer_id: inputs.last().event.finalizer_id,
                reason: DropReason::EncodeFailed,
            },
        )
    } else if route_of(inputs.last().event@) is None {
        drops_of(inputs.drop_last()).push(
            DroppedEvent {
                finalizer_id: inputs.last().event.finalizer_id,
                reason: DropReason::Unroutable,
            },
        )
    } else {
        drops_of(inputs.drop_last())
    }
}

/// The encoded events that route to key `k`, in arrival order.
pub open spec fn routed_for_key(inputs: Seq<PipelineInput>, k: PartitionKeyV) -> Seq<EncodedEvent>
    decreases inputs.len(),
{
    if inputs.len() == 0 {
        Seq::<EncodedEvent>::empty()
    } else if input_ok(inputs.last()) && route_of(inputs.last().event@) == Some(k) {
        routed_for_key(inputs.drop_last(), k).push(
            EncodedEvent { event: inputs.last().event, encoded: inputs.last().encoded.unwrap() },
        )
    } else {
        routed_for_key(inputs.drop_last(), k)
    }
}

/// The events of the batches emitted for key `k`, concatenated in emission
/// order.
pub open spec fn batched_for_key(batches: Seq<Batch>, k: PartitionKeyV) -> Seq<EncodedEvent>
    decreases batches.len(),
{
    if batches.len() == 0 {
        Seq::<EncodedEvent>::empty()
    } else if batches.last().key@ == k {
        batched_for_key(batches.drop_last(), k) + batches.last().events@
    } else {
        batched_for_key(batches.drop_last(), k)
    }
}

/// Count of all events over a sequence of batches.
pub open spec fn total_events(batches: Seq<Batch>) -> int
    decreases batches.len(),
{
    if batches.len() == 0 {
        0
    } else {
        total_events(batches.drop_last()) + batches.last().events@.len()
    }
}

proof fn lemma_open_for_key_remove(open: Seq<OpenBatch>, i: int, k: PartitionKeyV)
    requires
        0 <= i < open.len(),
        open[i].key@ != k,
    ensures
        open_for_key(open.remove(i), k) == open_for_key(open, k),
    decreases open.len(),
{
    if i == open.len() - 1 {
        assert(open.remove(i) =~= open.drop_last());
    } else {
        assert(open.remove(i).drop_last() =~= open.drop_last().remove(i));
        assert(open.remove(i).last() == open.last());
        lemma_open_for_key_remove(open.drop_last(), i, k);
    }
}

proof fn lemma_open_count_remove(open: Seq<OpenBatch>, i: int)
    requires
        0 <= i < open.len(),
    ensures
        open_count(open.remove(i)) == open_count(open) - open[i].events@.len(),
    decreases open.len(),
{
    if i == open.len() - 1 {
        assert(open.remove(i) =~= open.drop_last());
    } else {
        assert(open.remove(i).drop_last() =~= open.drop_last().remove(i));
        assert(open.remove(i).last() == open.last());
        lemma_open_count_remove(open.drop_last(), i);
    }
}

proof fn lemma_open_count_frame(s1: Seq<OpenBatch>, s2: Seq<OpenBatch>, i: int, c: int)
    requires
        s1.len() == s2.len(),
        0 <= i < s1.len(),
        forall|j: int| 0 <= j < s1.len() && j != i ==> s1[j] == #[trigger] s2[j],
        s2[i].events@.len() == s1[i].events@.len() + c,
    ensures
        open_count(s2) == open_count(s1) + c,
    decreases s1.len(),
{
    if i == s1.len() - 1 {
        assert(s1.drop_last() =~= s2.drop_last());
    } else {
        lemma_open_count_frame(s1.drop_last(), s2.drop_last(), i, c);
        assert(s1.last() == s2.last());
    }
}

proof fn lemma_batched_concat(a: Seq<Batch>, b: Seq<Batch>, k: PartitionKeyV)
    ensures
        batched_for_key(a + b, k) == batched_for_key(a, k) + batched_for_key(b, k),
        total_events(a + b) == total_events(a) + total_events(b),
    decreases b.len(),
{
    if b.len() == 0 {
        assert(a + b =~= a);
        assert(batched_for_key(a, k) + batched_for_key(b, k) =~= batched_for_key(a, k));
    } else {
        assert((a + b).drop_last() =~= a + b.drop_last());
        assert((a + b).last() == b.last());
        lemma_batched_concat(a, b.drop_last(), k);
        if b.last().key@ == k {
            assert(batched_for_key(a, k) + (batched_for_key(b.drop_last(), k) + b.last().events@)
                =~= (batched_for_key(a, k) + batched_for_key(b.drop_last(), k))
                + b.last().events@);
        }
    }
}

proof fn lemma_batches_match_open(r: Seq<Batch>, open: Seq<OpenBatch>, k: PartitionKeyV)
    requires
        r.len() == open.len(),
        forall|i: int|
            0 <= i < r.len() ==> (#[trigger] r[i]).key == open[i].key && r[i].events
                == open[i].events,
    ensures
        batched_for_key(r, k) == open_for_key(open, k),
        total_events(r) == open_count(open),
    decreases r.len(),
{
    if r.len() > 0 {
        lemma_batches_match_open(r.drop_last(), open.drop_last(), k);
        assert(r.last() == r[r.len() - 1]);
        assert(open.last() == open[open.len() - 1]);
    }
}

/// The finalizer tickets of a sequence of arrivals, as a multiset.
pub open spec fn input_ids(inputs: Seq<PipelineInput>) -> Multiset<u64>
    decreases inputs.len(),
{
    if inputs.len() == 0 {
        Multiset::<u64>::empty()
    } else {
        input_ids(inputs.drop_last()).insert(inputs.last().event.finalizer_id)
    }
}

/// The finalizer tickets of the dropped events, as a multiset.
pub open spec fn dropped_ids(dropped: Seq<DroppedEvent>) -> Multiset<u64>
    decreases dropped.len(),
{
    if dropped.len() == 0 {
        Multiset::<u64>::empty()
    } else {
        dropped_ids(dropped.drop_last()).insert(dropped.last().finalizer_id)
    }
}

/// The finalizer tickets of a sequence of encoded events, as a multiset.
pub open spec fn event_ids(events: Seq<EncodedEvent>) -> Multiset<u64>
    decreases events.len(),
{
    if events.len() == 0 {
        Multiset::<u64>::empty()
    } else {
        event_ids(events.drop_last()).insert(events.last().event.finalizer_id)
    }
}

/// The finalizer tickets over all batches, as a multiset.
pub open spec fn batch_ids(batches: Seq<Batch>) -> Multiset<u64>
    decreases batches.len(),
{
    if batches.len() == 0 {
        Multiset::<u64>::empty()
    } else {
        batch_ids(batches.drop_last()).add(event_ids(batches.last().events@))
    }
}

/// The finalizer tickets buffered over all open batches, as a multiset.
pub open spec fn open_ids(open: Seq<OpenBatch>) -> Multiset<u64>
    decreases open.len(),
{
    if open.len() == 0 {
        Multiset::<u64>::empty()
    } else {
        open_ids(open.drop_last()).add(event_ids(open.last().events@))
    }
}

proof fn lemma_open_ids_frame(s1: Seq<OpenBatch>, s2: Seq<OpenBatch>, j: int, e: EncodedEvent)
    requires
        s1.len() == s2.len(),
        0 <= j < s1.len(),
        forall|l: int| 0 <= l < s1.len() && l != j ==> s1[l] == #[trigger] s2[l],
        s2[j].events@ == s1[j].events@.push(e),
    ensures
        open_ids(s2) == open_ids(s1).insert(e.event.finalizer_id),
    decreases s1.len(),
{
    let x = e.event.finalizer_id;
    if j == s1.len() - 1 {
        assert(s1.drop_last() =~= s2.drop_last());
        assert(s2.last().events@.drop_last() =~= s1.last().events@);
        assert(event_ids(s2.last().events@) == event_ids(s1.last().events@).insert(x));
        assert(open_ids(s2.drop_last()).add(event_ids(s1.last().events@).insert(x)) =~= open_ids(
            s2.drop_last(),
        ).add(event_ids(s1.last().events@)).insert(x));
    } else {
        lemma_open_ids_frame(s1.drop_last(), s2.drop_last(), j, e);
        assert(s1.last() == s2.last());
        assert(open_ids(s1.drop_last()).insert(x).add(event_ids(s1.last().events@)) =~= open_ids(
            s1.drop_last(),
        ).add(event_ids(s1.last().events@)).insert(x));
    }
}

proof fn lemma_open_ids_remove(s: Seq<OpenBatch>, j: int)
    requires
        0 <= j < s.len(),
    ensures
        open_ids(s) == open_ids(s.remove(j)).add(event_ids(s[j].events@)),
    decreases s.len(),
{
    if j == s.len() - 1 {
        assert(s.remove(j) =~= s.drop_last());
    } else {
        assert(s.remove(j).drop_last() =~= s.drop_last().remove(j));
        assert(s.remove(j).last() == s.last());
        lemma_open_ids_remove(s.drop_last(), j);
        assert(open_ids(s.drop_last().remove(j)).add(event_ids(s[j].events@)).add(
            event_ids(s.last().events@),
        ) =~= open_ids(s.drop_last().remove(j)).add(event_ids(s.last().events@)).add(
            event_ids(s[j].events@),
        ));
    }
}

proof fn lemma_batch_ids_concat(a: Seq<Batch>, b: Seq<Batch>)
    ensures
        batch_ids(a + b) == batch_ids(a).add(batch_ids(b)),
    decreases b.len(),
{
    if b.len() == 0 {
        assert(a + b =~= a);
        assert(batch_ids(a).add(batch_ids(b)) =~= batch_ids(a));
    } else {
        assert((a + b).drop_last() =~= a + b.drop_last());
        assert((a + b).last() == b.last());
        lemma_batch_ids_concat(a, b.drop_last());
        assert(batch_ids(a).add(batch_ids(b.drop_last())).add(event_ids(b.last().events@)) =~=
        batch_ids(a).add(batch_ids(b.drop_last()).add(event_ids(b.last().events@))));
    }
}

proof fn lemma_batch_ids_match_open(r: Seq<Batch>, open: Seq<OpenBatch>)
    requires
        r.len() == open.len(),
        forall|i: int|
            0 <= i < r.len() ==> (#[trigger] r[i]).key == open[i].key && r[i].events
                == open[i].events,
    ensures
        batch_ids(r) == open_ids(open),
    decreases r.len(),
{
    if r.len() > 0 {
        lemma_batch_ids_match_open(r.drop_last(), open.drop_last());
        assert(r.last() == r[r.len() - 1]);
        assert(open.last() == open[open.len() - 1]);
    }
}

/// Outcome of one full batching run: the dropped events (each owed a failure
/// finalization) and the emitted batches.
pub struct BatchingOutput {
    pub dropped: Vec<DroppedEvent>,
    pub batches: Vec<Batch>,
}

/// What one full batching run guarantees: the drops are exactly the inputs
/// that failed to encode or to route, in arrival order; every other input
/// lands in exactly one batch; batches are pure and non-empty; per key the
/// batched events are exactly the routed arrivals, in order; and the flush
/// boundaries are pinned — every batch emitted before end of input is at a
/// bound, the under-bound batches are the end-of-input flushes, they come
/// last, and they hold one key each.
pub open spec fn batching_post(
    inputs: Seq<PipelineInput>,
    settings: BatcherSettings,
    dropped: Seq<DroppedEvent>,
    batches: Seq<Batch>,
) -> bool {
    &&& dropped == drops_of(inputs)
    &&& total_events(batches) + dropped.len() == inputs.len()
    &&& dropped_ids(dropped).add(batch_ids(batches)) == input_ids(inputs)
    &&& forall|i: int|
        0 <= i < batches.len() ==> (#[trigger] batches[i]).pure() && batches[i].events@.len() >= 1
    &&& forall|k: PartitionKeyV| #![trigger routed_for_key(inputs, k)]
        batched_for_key(batches, k) == routed_for_key(inputs, k)
    &&& forall|i: int, j: int|
        #![trigger at_bound(batches[i], settings), at_bound(batches[j], settings)]
        0 <= i < j < batches.len() && !at_bound(batches[i], settings) ==> !at_bound(
            batches[j],
            settings,
        )
    &&& forall|i: int, j: int|
        #![trigger at_bound(batches[i], settings), at_bound(batches[j], settings)]
        0 <= i < j < batches.len() && !at_bound(batches[i], settings) && !at_bound(
            batches[j],
            settings,
        ) ==> batches[i].key@ != batches[j].key@
}

/// One full pass of the batching side of the pipeline over a finite input
/// sequence: every arrival is encoded-paired, routed and batched, and at end
/// of input every open batch is flushed. Every input either lands in exactly
/// one batch or is reported dropped; per key, batched events keep arrival
/// order across the batches in emission order.
pub fn run_batching(inputs: Vec<PipelineInput>, settings: BatcherSettings, now_ms: u64) -> (r:
    BatchingOutput)
    requires
        settings.wf(),
        forall|i: int|
            0 <= i < inputs@.len() ==> ((#[trigger] inputs@[i].encoded) matches Some(v) ==> v@.len()
                + settings.max_bytes <= usize::MAX),
    ensures
        batching_post(inputs@, settings, r.dropped@, r.batches@),
{
    let ghost orig = inputs@;
    let mut inputs = inputs;
    let mut batcher = Batcher::new(settings);
    let mut dropped: Vec<DroppedEvent> = Vec::new();
    let mut emitted: Vec<Batch> = Vec::new();
    let mut k: usize = 0;
    let n: usize = inputs.len();
    while inputs.len() > 0
        invariant
            batcher.wf(),
            batcher.settings == settings,
            settings.wf(),
            forall|i: int|
                0 <= i < orig.len() ==> ((#[trigger] orig[i].encoded) matches Some(v) ==> v@.len()
                    + settings.max_bytes <= usize::MAX),
            k + inputs@.len() == n,
            n == orig.len(),
            inputs@ == orig.skip(k as int),
            dropped@ == drops_of(orig.take(k as int)),
            total_events(emitted@) + dropped@.len() + open_count(batcher.open@) == k,
            dropped_ids(dropped@).add(batch_ids(emitted@)).add(open_ids(batcher.open@))
                == input_ids(orig.take(k as int)),
            forall|i: int|
                0 <= i < emitted@.len() ==> (#[trigger] emitted@[i]).pure()
                    && emitted@[i].events@.len() >= 1,
            forall|i: int|
                0 <= i < emitted@.len() ==> at_bound(#[trigger] emitted@[i], settings),
            forall|kv: PartitionKeyV| #![trigger routed_for_key(orig.take(k as int), kv)]
                batched_for_key(emitted@, kv) + open_for_key(batcher.open@, kv)
                    == routed_for_key(orig.take(k as int), kv),
        decreases inputs@.len(),
    {
        let x = inputs.remove(0);
        proof {
            assert(x == orig[k as int]);
            assert(inputs@ =~= orig.skip(k + 1 as int));
            assert(orig.take(k + 1 as int).drop_last() =~= orig.take(k as int));
            assert(orig.take(k + 1 as int).last() == orig[k as int]);
        }
        let ghost t1 = orig.take(k + 1 as int);
        let ghost t0 = orig.take(k as int);
        let ghost em0 = emitted@;
        let ghost op0 = batcher.open@;
        let ghost dr0 = dropped@;
        let PipelineInput { event, encoded } = x;
        match encoded {
            None => {
                dropped.push(
                    DroppedEvent {
                        finalizer_id: event.finalizer_id,
                        reason: DropReason::EncodeFailed,
                    },
                );
                proof {
                    assert forall|kv: PartitionKeyV| #![trigger routed_for_key(t1, kv)]
                        batched_for_key(emitted@, kv) + open_for_key(batcher.open@, kv)
                            == routed_for_key(t1, kv) by {
                        assert(routed_for_key(t1, kv) == routed_for_key(t0, kv));
                    }
                    assert(dropped@.drop_last() =~= dr0);
                    assert(dropped_ids(dropped@) == dropped_ids(dr0).insert(event.finalizer_id));
                    assert(dropped_ids(dr0).insert(event.finalizer_id).add(batch_ids(em0)).add(
                        open_ids(op0),
                    ) =~= dropped_ids(dr0).add(batch_ids(em0)).add(open_ids(op0)).insert(
                        event.finalizer_id,
                    ));
                    assert(input_ids(t1) == input_ids(t0).insert(event.finalizer_id));
                }
            },
            Some(encoded_bytes) => {
                match crate::event::partition(&event) {
                    None => {
                        dropped.push(
                            DroppedEvent {
                                finalizer_id: event.finalizer_id,
                                reason: DropReason::Unroutable,
                            },
                        );
                        proof {
                            assert forall|kv: PartitionKeyV| #![trigger routed_for_key(t1, kv)]
                                batched_for_key(emitted@, kv) + open_for_key(batcher.open@, kv)
                                    == routed_for_key(t1, kv) by {
                                assert(routed_for_key(t1, kv) == routed_for_key(t0, kv));
                            }
                            assert(dropped@.drop_last() =~= dr0);
                            assert(dropped_ids(dropped@) == dropped_ids(dr0).insert(event.finalizer_id));
                            assert(dropped_ids(dr0).insert(event.finalizer_id).add(batch_ids(em0)).add(
                                open_ids(op0),
                            ) =~= dropped_ids(dr0).add(batch_ids(em0)).add(open_ids(op0)).insert(
                                event.finalizer_id,
                            ));
                            assert(input_ids(t1) == input_ids(t0).insert(event.finalizer_id));
                        }
                    },
                    Some(key) => {
                        let ghost kv0 = key@;
                        let item = EncodedEvent { event, encoded: encoded_bytes };
                        proof {
                            assert(item == (EncodedEvent {
                                event: orig[k as int].event,
                                encoded: orig[k as int].encoded.unwrap(),
                            }));
                            assert(routed_for_key(t1, kv0) == routed_for_key(t0, kv0).push(item));
                            assert(input_ids(t1) == input_ids(t0).insert(item.event.finalizer_id));
                        }
                        let flushed = batcher.push(key, item, now_ms);
                        let ghost opn = batcher.open@;
                        match flushed {
                            None => {
                                proof {
                                    if exists|j: int|
                                        0 <= j < op0.len() && (#[trigger] op0[j].key@) == kv0 {
                                        let j = choose|j: int|
                                            0 <= j < op0.len() && (#[trigger] op0[j].key@) == kv0;
                                        lemma_open_count_frame(op0, opn, j, 1);
                                        lemma_open_ids_frame(op0, opn, j, item);
                                        assert(dropped_ids(dr0).add(batch_ids(em0)).add(
                                            open_ids(op0).insert(item.event.finalizer_id),
                                        ) =~= dropped_ids(dr0).add(batch_ids(em0)).add(
                                            open_ids(op0),
                                        ).insert(item.event.finalizer_id));
                                        assert forall|kv: PartitionKeyV|
                                            #![trigger routed_for_key(t1, kv)]
                                            batched_for_key(emitted@, kv) + open_for_key(opn, kv)
                                                == routed_for_key(t1, kv) by {
                                            if kv == kv0 {
                                                lemma_open_for_key_at(op0, kv, j);
                                                lemma_open_for_key_at(opn, kv, j);
                                                assert(routed_for_key(t1, kv) == routed_for_key(
                                                    t0,
                                                    kv,
                                                ).push(item));
                                                assert(batched_for_key(em0, kv)
                                                    + op0[j].events@.push(item) =~= (
                                                batched_for_key(em0, kv)
                                                    + op0[j].events@).push(item));
                                            } else {
                                                assert(routed_for_key(t1, kv) == routed_for_key(
                                                    t0,
                                                    kv,
                                                ));
                                                if exists|l: int|
                                                    0 <= l < op0.len() && (#[trigger] op0[l].key@)
                                                        == kv {
                                                    let l = choose|l: int|
                                                        0 <= l < op0.len() && (
                                                        #[trigger] op0[l].key@) == kv;
                                                    assert(l != j);
                                                    assert(opn[l] == op0[l]);
                                                    lemma_open_for_key_at(op0, kv, l);
                                                    lemma_open_for_key_at(opn, kv, l);
                                                } else {
                                                    assert forall|l: int|
                                                        0 <= l < opn.len() implies (
                                                    #[trigger] opn[l].key@) != kv by {
                                                        if l == j {
                                                            assert(opn[j].key == op0[j].key);
                                                        } else {
                                                            assert(opn[l] == op0[l]);
                                                        }
                                                    }
                                                    lemma_open_for_key_absent(op0, kv);
                                                    lemma_open_for_key_absent(opn, kv);
                                                }
                                            }
                                        }
                                    } else {
                                        assert(opn.drop_last() == op0);
                                        assert(opn.last().events@ == seq![item]);
                                        assert(open_count(opn) == open_count(op0) + 1);
                                        assert(seq![item].drop_last() =~= Seq::<
                                            EncodedEvent,
                                        >::empty());
                                        assert(event_ids(Seq::<EncodedEvent>::empty())
                                            == Multiset::<u64>::empty());
                                        assert(event_ids(opn.last().events@) == Multiset::<
                                            u64,
                                        >::empty().insert(item.event.finalizer_id));
                                        assert(open_ids(opn) == open_ids(op0).add(
                                            event_ids(opn.last().events@),
                                        ));
                                        assert(dropped_ids(dr0).add(batch_ids(em0)).add(
                                            open_ids(opn),
                                        ) =~= dropped_ids(dr0).add(batch_ids(em0)).add(
                                            open_ids(op0),
                                        ).insert(item.event.finalizer_id));
                                        assert forall|kv: PartitionKeyV|
                                            #![trigger routed_for_key(t1, kv)]
                                            batched_for_key(emitted@, kv) + open_for_key(opn, kv)
                                                == routed_for_key(t1, kv) by {
                                            if kv == kv0 {
                                                lemma_open_for_key_absent(op0, kv);
                                                assert(open_for_key(opn, kv) == open_for_key(
                                                    op0,
                                                    kv,
                                                ) + opn.last().events@);
                                                assert(routed_for_key(t1, kv) == routed_for_key(
                                                    t0,
                                                    kv,
                                                ).push(item));
                                                assert(batched_for_key(em0, kv) + (open_for_key(
                                                    op0,
                                                    kv,
                                                ) + seq![item]) =~= (batched_for_key(em0, kv)
                                                    + open_for_key(op0, kv)).push(item));
                                            } else {
                                                assert(opn.last().key@ == kv0);
                                                assert(open_for_key(opn, kv) == open_for_key(
                                                    op0,
                                                    kv,
                                                ));
                                                assert(routed_for_key(t1, kv) == routed_for_key(
                                                    t0,
                                                    kv,
                                                ));
                                            }
                                        }
                                    }
                                }
                            },
                            Some(b) => {
                                emitted.push(b);
                                proof {
                                    assert(emitted@.drop_last() =~= em0);
                                    assert(emitted@.last() == b);
                                    if exists|j: int|
                                        0 <= j < op0.len() && (#[trigger] op0[j].key@) == kv0 {
                                        let j = choose|j: int|
                                            0 <= j < op0.len() && (#[trigger] op0[j].key@) == kv0;
                                        assert(b.key == op0[j].key);
                                        assert(b.events@ == op0[j].events@.push(item));
                                        assert(opn == op0.remove(j));
                                        lemma_open_count_remove(op0, j);
                                        lemma_open_ids_remove(op0, j);
                                        lemma_sum_encoded_push(op0[j].events@, item);
                                        assert(op0[j].wf(settings));
                                        assert(at_bound(b, settings));
                                        assert(b.events@.drop_last() =~= op0[j].events@);
                                        assert(event_ids(b.events@) == event_ids(
                                            op0[j].events@,
                                        ).insert(item.event.finalizer_id));
                                        assert(batch_ids(emitted@) == batch_ids(em0).add(
                                            event_ids(b.events@),
                                        ));
                                        assert(dropped_ids(dr0).add(batch_ids(emitted@)).add(
                                            open_ids(opn),
                                        ) =~= dropped_ids(dr0).add(batch_ids(em0)).add(
                                            open_ids(opn).add(event_ids(op0[j].events@)),
                                        ).insert(item.event.finalizer_id));
                                        assert forall|kv: PartitionKeyV|
                                            #![trigger routed_for_key(t1, kv)]
                                            batched_for_key(emitted@, kv) + open_for_key(opn, kv)
                                                == routed_for_key(t1, kv) by {
                                            if kv == kv0 {
                                                lemma_open_for_key_at(op0, kv, j);
                                                assert forall|l: int|
                                                    0 <= l < opn.len() implies (
                                                #[trigger] opn[l].key@) != kv by {
                                                    if l < j {
                                                        assert(opn[l] == op0[l]);
                                                        assert(op0[l].key@ != op0[j].key@);
                                                    } else {
                                                        assert(opn[l] == op0[l + 1]);
                                                        assert(op0[l + 1].key@ != op0[j].key@);
                                                    }
                                                }
                                                lemma_open_for_key_absent(opn, kv);
                                                assert(routed_for_key(t1, kv) == routed_for_key(
                                                    t0,
                                                    kv,
                                                ).push(item));
                                                assert((batched_for_key(em0, kv)
                                                    + op0[j].events@.push(item)) + Seq::<
                                                    EncodedEvent,
                                                >::empty() =~= (batched_for_key(em0, kv)
                                                    + op0[j].events@).push(item));
                                            } else {
                                                assert(routed_for_key(t1, kv) == routed_for_key(
                                                    t0,
                                                    kv,
                                                ));
                                                assert(batched_for_key(emitted@, kv)
                                                    == batched_for_key(em0, kv));
                                                lemma_open_for_key_remove(op0, j, kv);
                                            }
                                        }
                                    } else {
                                        assert(b.key == key);
                                        assert(b.events@ == seq![item]);
                                        assert(opn == op0);
                                        assert(sum_encoded(Seq::<EncodedEvent>::empty()) == 0);
                                        assert(b.events@.drop_last() =~= Seq::<
                                            EncodedEvent,
                                        >::empty());
                                        assert(sum_encoded(b.events@) == item.encoded@.len());
                                        assert(at_bound(b, settings));
                                        assert(seq![item].drop_last() =~= Seq::<
                                            EncodedEvent,
                                        >::empty());
                                        assert(event_ids(Seq::<EncodedEvent>::empty())
                                            == Multiset::<u64>::empty());
                                        assert(event_ids(b.events@) == Multiset::<
                                            u64,
                                        >::empty().insert(item.event.finalizer_id));
                                        assert(batch_ids(emitted@) == batch_ids(em0).add(
                                            event_ids(b.events@),
                                        ));
                                        assert(dropped_ids(dr0).add(batch_ids(emitted@)).add(
                                            open_ids(opn),
                                        ) =~= dropped_ids(dr0).add(batch_ids(em0)).add(
                                            open_ids(op0),
                                        ).insert(item.event.finalizer_id));
                                        assert forall|kv: PartitionKeyV|
                                            #![trigger routed_for_key(t1, kv)]
                                            batched_for_key(emitted@, kv) + open_for_key(opn, kv)
                                                == routed_for_key(t1, kv) by {
                                            if kv == kv0 {
                                                lemma_open_for_key_absent(op0, kv);
                                                assert(routed_for_key(t1, kv) == routed_for_key(
                                                    t0,
                                                    kv,
                                                ).push(item));
                                                assert((batched_for_key(em0, kv) + seq![item])
                                                    + open_for_key(op0, kv) =~= (batched_for_key(
                                                    em0,
                                                    kv,
                                                ) + open_for_key(op0, kv)).push(item));
                                            } else {
                                                assert(batched_for_key(emitted@, kv)
                                                    == batched_for_key(em0, kv));
                                                assert(routed_for_key(t1, kv) == routed_for_key(
                                                    t0,
                                                    kv,
                                                ));
                                            }
                                        }
                                    }
                                }
                            },
                        }
                    },
                }
            },
        }
        k += 1;
    }
    proof {
        assert(orig.take(n as int) =~= orig);
    }
    let ghost em1 = emitted@;
    let ghost op1 = batcher.open@;
    let mut tail = batcher.finish();
    let ghost tl = tail@;
    emitted.append(&mut tail);
    proof {
        assert(emitted@ == em1 + tl);
        assert forall|kv: PartitionKeyV| #![trigger routed_for_key(orig, kv)]
            batched_for_key(emitted@, kv) == routed_for_key(orig, kv) by {
            lemma_batched_concat(em1, tl, kv);
            lemma_batches_match_open(tl, op1, kv);
        }
        lemma_batched_concat(em1, tl, kv_any());
        lemma_batches_match_open(tl, op1, kv_any());
        lemma_batch_ids_concat(em1, tl);
        lemma_batch_ids_match_open(tl, op1);
        assert(dropped_ids(dropped@).add(batch_ids(em1).add(open_ids(op1))) =~= dropped_ids(
            dropped@,
        ).add(batch_ids(em1)).add(open_ids(op1)));
        assert forall|i: int|
            em1.len() <= i < emitted@.len() implies !at_bound(#[trigger] emitted@[i], settings) by {
            let ob = op1[i - em1.len()];
            assert(emitted@[i] == tl[i - em1.len()]);
            assert(tl[i - em1.len()].events == ob.events);
            assert(ob.wf(settings));
        }
        assert forall|i: int, j: int|
            #![trigger at_bound(emitted@[i], settings), at_bound(emitted@[j], settings)]
            0 <= i < j < emitted@.len() && !at_bound(emitted@[i], settings) implies !at_bound(
            emitted@[j],
            settings,
        ) by {
            if i < em1.len() {
                assert(emitted@[i] == em1[i]);
                assert(at_bound(em1[i], settings));
            }
        }
        assert forall|i: int, j: int|
            #![trigger at_bound(emitted@[i], settings), at_bound(emitted@[j], settings)]
            0 <= i < j < emitted@.len() && !at_bound(emitted@[i], settings) && !at_bound(
            emitted@[j],
            settings,
        ) implies emitted@[i].key@ != emitted@[j].key@ by {
            if i < em1.len() {
                assert(emitted@[i] == em1[i]);
                assert(at_bound(em1[i], settings));
            } else {
                assert(emitted@[i] == tl[i - em1.len()] && emitted@[j] == tl[j - em1.len()]);
                assert(tl[i - em1.len()].key == op1[i - em1.len()].key);
                assert(tl[j - em1.len()].key == op1[j - em1.len()].key);
                assert(op1[i - em1.len()].key@ != op1[j - em1.len()].key@);
            }
        }
        assert forall|i: int|
            0 <= i < emitted@.len() implies (#[trigger] emitted@[i]).pure()
            && emitted@[i].events@.len() >= 1 by {
            if i >= em1.len() {
                let ob = op1[i - em1.len()];
                assert(emitted@[i] == tl[i - em1.len()]);
                assert(tl[i - em1.len()].key == ob.key && tl[i - em1.len()].events == ob.events);
                assert(ob.wf(settings));
                assert(emitted@[i].events@ == ob.events@);
            } else {
                assert(emitted@[i] == em1[i]);
            }
        }
    }
    BatchingOutput { dropped, batches: emitted }
}

/// An arbitrary key, used only to instantiate count conclusions.
spec fn kv_any() -> PartitionKeyV {
    PartitionKeyV { key_prefix: Seq::<char>::empty(), ssekms_key_id: None }
}

/// Count of finalizer firings over the per-request finalization lists.
pub open spec fn total_finalizations(fired: Seq<Seq<Finalization>>) -> int
    decreases fired.len(),
{
    if fired.len() == 0 {
        0
    } else {
        total_finalizations(fired.drop_last()) + fired.last().len()
    }
}

proof fn lemma_finalizations_match_batches(fired: Seq<Seq<Finalization>>, batches: Seq<Batch>)
    requires
        fired.len() == batches.len(),
        forall|i: int| 0 <= i < fired.len() ==> (#[trigger] fired[i]).len()
            == batches[i].events@.len(),
    ensures
        total_finalizations(fired) == total_events(batches),
    decreases fired.len(),
{
    if fired.len() > 0 {
        lemma_finalizations_match_batches(fired.drop_last(), batches.drop_last());
        assert(fired.last() == fired[fired.len() - 1]);
        assert(batches.last() == batches[batches.len() - 1]);
    }
}

/// The finalizer tickets of one request's firings, as a multiset.
pub open spec fn fired_seq_ids(fired: Seq<Finalization>) -> Multiset<u64>
    decreases fired.len(),
{
    if fired.len() == 0 {
        Multiset::<u64>::empty()
    } else {
        fired_seq_ids(fired.drop_last()).insert(fired.last().finalizer_id)
    }
}

/// The finalizer tickets fired over all requests, as a multiset.
pub open spec fn fired_ids(fired: Seq<Seq<Finalization>>) -> Multiset<u64>
    decreases fired.len(),
{
    if fired.len() == 0 {
        Multiset::<u64>::empty()
    } else {
        fired_ids(fired.drop_last()).add(fired_seq_ids(fired.last()))
    }
}

proof fn lemma_fired_match_events(fired: Seq<Finalization>, events: Seq<EncodedEvent>)
    requires
        fired.len() == events.len(),
        forall|l: int| 0 <= l < fired.len() ==> (#[trigger] fired[l]).finalizer_id
            == events[l].event.finalizer_id,
    ensures
        fired_seq_ids(fired) == event_ids(events),
    decreases fired.len(),
{
    if fired.len() > 0 {
        lemma_fired_match_events(fired.drop_last(), events.drop_last());
        assert(fired.last() == fired[fired.len() - 1]);
        assert(events.last() == events[events.len() - 1]);
    }
}

proof fn lemma_fired_ids_match_batches(fired: Seq<Seq<Finalization>>, batches: Seq<Batch>)
    requires
        fired.len() == batches.len(),
        forall|i: int| 0 <= i < fired.len() ==> (#[trigger] fired[i]).len()
            == batches[i].events@.len(),
        forall|i: int, l: int|
            0 <= i < fired.len() && 0 <= l < fired[i].len() ==> (#[trigger] fired[i][l]).finalizer_id
                == batches[i].events@[l].event.finalizer_id,
    ensures
        fired_ids(fired) == batch_ids(batches),
    decreases fired.len(),
{
    if fired.len() > 0 {
        lemma_fired_ids_match_batches(fired.drop_last(), batches.drop_last());
        assert(fired.last() == fired[fired.len() - 1]);
        assert(batches.last() == batches[batches.len() - 1]);
        lemma_fired_match_events(fired.last(), batches.last().events@);
    }
}

/// No loss, no duplication: over one full run of a finite input sequence,
/// the finalizer firings number exactly the inputs, and their tickets are
/// exactly the arriving tickets. Every dropped input fires once with a
/// failure, and every batched input travels on exactly one request, whose
/// settlement fires one finalization per batched event; so each event's
/// finalizer fires exactly once.
pub proof fn lemma_finalize_exactly_once(
    inputs: Seq<PipelineInput>,
    settings: BatcherSettings,
    dropped: Seq<DroppedEvent>,
    batches: Seq<Batch>,
    fired: Seq<Seq<Finalization>>,
)
    requires
        batching_post(inputs, settings, dropped, batches),
        fired.len() == batches.len(),
        forall|i: int| 0 <= i < fired.len() ==> (#[trigger] fired[i]).len()
            == batches[i].events@.len(),
        forall|i: int, l: int|
            0 <= i < fired.len() && 0 <= l < fired[i].len() ==> (#[trigger] fired[i][l]).finalizer_id
                == batches[i].events@[l].event.finalizer_id,
    ensures
        dropped.len() + total_finalizations(fired) == inputs.len(),
        dropped_ids(dropped).add(fired_ids(fired)) == input_ids(inputs),
{
    lemma_finalizations_match_batches(fired, batches);
    lemma_fired_ids_match_batches(fired, batches);
}

} // verus!
