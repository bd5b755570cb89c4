use vstd::prelude::*;
use crate::request::S3Request;

verus! {

/// Lifecycle of one built request. Both end states are terminal: once a
/// request's finalizers fire, the request is fully retired and the driver
/// never resubmits it.
#[derive(Clone, Copy, PartialEq, Eq, Structural, Debug)]
pub enum RequestState {
    Built,
    Submitted,
    Acknowledged,
    Rejected,
}

/// What the delivery service reports for one submitted request.
#[derive(Clone, Copy, PartialEq, Eq, Structural, Debug)]
pub struct DeliveryResponse {
    pub success: bool,
    pub event_count: u64,
    pub byte_count: u64,
}

/// One firing of an event's finalizer ticket with a delivery outcome.
#[derive(Clone, Copy, PartialEq, Eq, Structural, Debug)]
pub struct Finalization {
    pub finalizer_id: u64,
    pub success: bool,
}

/// Pipeline-wide delivery counters folded from successful responses.
#[derive(Clone, Copy, PartialEq, Eq, Structural, Debug, Default)]
pub struct DeliveryMetrics {
    pub events_delivered: u64,
    pub bytes_delivered: u64,
}

/// Hands a built request to the delivery service.
pub fn submit(state: RequestState) -> (r: RequestState)
    requires
        state is Built,
    ensures
        r is Submitted,
{
    RequestState::Submitted
}

/// Retires a submitted request with the service's verdict.
pub fn settle(state: RequestState, success: bool) -> (r: RequestState)
    requires
        state is Submitted,
    ensures
        success ==> r is Acknowledged,
        !success ==> r is Rejected,
{
    if success {
        RequestState::Acknowledged
    } else {
        RequestState::Rejected
    }
}

/// Fires every finalizer of one request with the same outcome, each exactly
/// once, in order.
pub fn finalize_all(finalizers: &Vec<u64>, success: bool) -> (r: Vec<Finalization>)
    ensures
        r@.len() == finalizers@.len(),
        forall|i: int|
            0 <= i < r@.len() ==> (#[trigger] r@[i]) == (Finalization {
                finalizer_id: finalizers@[i],
                success,
            }),
{
    let mut out: Vec<Finalization> = Vec::new();
    let mut i: usize = 0;
    let n = finalizers.len();
    while i < n
        invariant
            n == finalizers@.len(),
            i <= n,
            out@.len() == i,
            forall|j: int|
                0 <= j < i ==> (#[trigger] out@[j]) == (Finalization {
                    finalizer_id: finalizers@[j],
                    success,
                }),
        decreases n - i,
    {
        out.push(Finalization { finalizer_id: finalizers[i], success });
        i += 1;
    }
    out
}

impl DeliveryMetrics {
    pub fn new() -> (r: DeliveryMetrics)
        ensures
            r.events_delivered == 0,
            r.bytes_delivered == 0,
    {
        DeliveryMetrics { events_delivered: 0, bytes_delivered: 0 }
    }

    /// Folds one successful response's counts into the totals; a failed
    /// response changes nothing here (failure is surfaced via finalization).
    pub fn record(&mut self, response: &DeliveryResponse)
        requires
            old(self).events_delivered + response.event_count <= u64::MAX,
            old(self).bytes_delivered + response.byte_count <= u64::MAX,
        ensures
            response.success ==> final(self).events_delivered == old(self).events_delivered
                + response.event_count && final(self).bytes_delivered == old(
                self,
            ).bytes_delivered + response.byte_count,
            !response.success ==> *final(self) == *old(self),
    {
        if response.success {
            self.events_delivered = self.events_delivered + response.event_count;
            self.bytes_delivered = self.bytes_delivered + response.byte_count;
        }
    }
}

/// Retires one delivered request: settles its state, fires each of its
/// finalizers exactly once with the service's verdict, and folds a
/// successful response's counts into the delivery metrics.
pub fn complete_request(
    state: RequestState,
    finalizers: &Vec<u64>,
    response: &DeliveryResponse,
    metrics: &mut DeliveryMetrics,
) -> (r: (RequestState, Vec<Finalization>))
    requires
        state is Submitted,
        old(metrics).events_delivered + response.event_count <= u64::MAX,
        old(metrics).bytes_delivered + response.byte_count <= u64::MAX,
    ensures
        response.success ==> r.0 is Acknowledged,
        !response.success ==> r.0 is Rejected,
        r.1@.len() == finalizers@.len(),
        forall|i: int|
            0 <= i < r.1@.len() ==> (#[trigger] r.1@[i]) == (Finalization {
                finalizer_id: finalizers@[i],
                success: response.success,
            }),
        response.success ==> final(metrics).events_delivered == old(metrics).events_delivered
            + response.event_count && final(metrics).bytes_delivered == old(
            metrics,
        ).bytes_delivered + response.byte_count,
        !response.success ==> *final(metrics) == *old(metrics),
{
    let next = settle(state, response.success);
    let fired = finalize_all(finalizers, response.success);
    metrics.record(response);
    (next, fired)
}

/// Sum of the event counts the responses report.
pub open spec fn sum_event_counts(responses: Seq<DeliveryResponse>) -> int
    decreases responses.len(),
{
    if responses.len() == 0 {
        0
    } else {
        sum_event_counts(responses.drop_last()) + responses.last().event_count
    }
}

/// Sum of the byte counts the responses report.
pub open spec fn sum_byte_counts(responses: Seq<DeliveryResponse>) -> int
    decreases responses.len(),
{
    if responses.len() == 0 {
        0
    } else {
        sum_byte_counts(responses.drop_last()) + responses.last().byte_count
    }
}

/// Event count folded into the metrics: the successful responses' counts.
pub open spec fn delivered_event_count(responses: Seq<DeliveryResponse>) -> int
    decreases responses.len(),
{
    if responses.len() == 0 {
        0
    } else {
        delivered_event_count(responses.drop_last()) + if responses.last().success {
            responses.last().event_count as int
        } else {
            0int
        }
    }
}

/// Byte count folded into the metrics: the successful responses' counts.
pub open spec fn delivered_byte_count(responses: Seq<DeliveryResponse>) -> int
    decreases responses.len(),
{
    if responses.len() == 0 {
        0
    } else {
        delivered_byte_count(responses.drop_last()) + if responses.last().success {
            responses.last().byte_count as int
        } else {
            0int
        }
    }
}

proof fn lemma_delivered_le(responses: Seq<DeliveryResponse>)
    ensures
        0 <= delivered_event_count(responses) <= sum_event_counts(responses),
        0 <= delivered_byte_count(responses) <= sum_byte_counts(responses),
    decreases responses.len(),
{
    if responses.len() > 0 {
        lemma_delivered_le(responses.drop_last());
    }
}

proof fn lemma_sum_counts_take_le(responses: Seq<DeliveryResponse>, j: int)
    requires
        0 <= j <= responses.len(),
    ensures
        sum_event_counts(responses.take(j)) <= sum_event_counts(responses),
        sum_byte_counts(responses.take(j)) <= sum_byte_counts(responses),
    decreases responses.len() - j,
{
    if j == responses.len() {
        assert(responses.take(j) =~= responses);
    } else {
        assert(responses.take(j + 1).drop_last() =~= responses.take(j));
        lemma_sum_counts_take_le(responses, j + 1);
    }
}

/// Settles every built request exactly once against its response, in
/// order: submits it, fires one finalization per finalizer ticket with the
/// service's verdict, and folds the successful responses' counts into the
/// delivery metrics. One response per request is the service's contract;
/// the firing lists returned here are exactly one per request.
pub fn drive_requests(
    requests: &Vec<S3Request>,
    responses: &Vec<DeliveryResponse>,
    metrics: &mut DeliveryMetrics,
) -> (fired: Vec<Vec<Finalization>>)
    requires
        requests@.len() == responses@.len(),
        old(metrics).events_delivered + sum_event_counts(responses@) <= u64::MAX,
        old(metrics).bytes_delivered + sum_byte_counts(responses@) <= u64::MAX,
    ensures
        fired@.len() == requests@.len(),
        forall|i: int|
            0 <= i < fired@.len() ==> (#[trigger] fired@[i]).len()
                == requests@[i].metadata.finalizers@.len(),
        forall|i: int, l: int|
            0 <= i < fired@.len() && 0 <= l < fired@[i].len() ==> (#[trigger] fired@[i][l])
                == (Finalization {
                finalizer_id: requests@[i].metadata.finalizers@[l],
                success: responses@[i].success,
            }),
        final(metrics).events_delivered == old(metrics).events_delivered + delivered_event_count(
            responses@,
        ),
        final(metrics).bytes_delivered == old(metrics).bytes_delivered + delivered_byte_count(
            responses@,
        ),
{
    let ghost ev0 = metrics.events_delivered;
    let ghost by0 = metrics.bytes_delivered;
    let mut fired: Vec<Vec<Finalization>> = Vec::new();
    let mut i: usize = 0;
    let n = requests.len();
    while i < n
        invariant
            n == requests@.len(),
            requests@.len() == responses@.len(),
            i <= n,
            ev0 + sum_event_counts(responses@) <= u64::MAX,
            by0 + sum_byte_counts(responses@) <= u64::MAX,
            metrics.events_delivered == ev0 + delivered_event_count(responses@.take(i as int)),
            metrics.bytes_delivered == by0 + delivered_byte_count(responses@.take(i as int)),
            fired@.len() == i,
            forall|l: int|
                0 <= l < i ==> (#[trigger] fired@[l]).len()
                    == requests@[l].metadata.finalizers@.len(),
            forall|l: int, m: int|
                0 <= l < i && 0 <= m < fired@[l].len() ==> (#[trigger] fired@[l][m])
                    == (Finalization {
                    finalizer_id: requests@[l].metadata.finalizers@[m],
                    success: responses@[l].success,
                }),
        decreases n - i,
    {
        proof {
            assert(responses@.take(i + 1 as int).drop_last() =~= responses@.take(i as int));
            assert(responses@.take(i + 1 as int).last() == responses@[i as int]);
            lemma_delivered_le(responses@.take(i as int));
            lemma_delivered_le(responses@.take(i + 1 as int));
            lemma_sum_counts_take_le(responses@, i + 1);
        }
        let state = submit(RequestState::Built);
        let (_, f) = complete_request(
            state,
            &requests[i].metadata.finalizers,
            &responses[i],
            metrics,
        );
        fired.push(f);
        i += 1;
    }
    proof {
        assert(responses@.take(n as int) =~= responses@);
    }
    fired
}

} // verus!
