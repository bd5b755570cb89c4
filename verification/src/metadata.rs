use vstd::prelude::*;
use crate::event::{EncodedEvent, EventKind, sum_encoded};

verus! {

/// Per-class event counts and encoded byte sizes, the observability
/// breakdown carried on each request's metadata.
#[derive(Clone, Copy, PartialEq, Eq, Structural, Debug)]
pub struct GroupedSizes {
    pub log_count: usize,
    pub log_bytes: usize,
    pub metric_count: usize,
    pub metric_bytes: usize,
    pub trace_count: usize,
    pub trace_bytes: usize,
}

/// Events of class `k` among `events`.
pub open spec fn count_of_kind(events: Seq<EncodedEvent>, k: EventKind) -> int
    decreases events.len(),
{
    if events.len() == 0 {
        0
    } else {
        count_of_kind(events.drop_last(), k) + if events.last().event.kind == k {
            1int
        } else {
            0int
        }
    }
}

/// Encoded bytes of the events of class `k` among `events`.
pub open spec fn bytes_of_kind(events: Seq<EncodedEvent>, k: EventKind) -> int
    decreases events.len(),
{
    if events.len() == 0 {
        0
    } else {
        bytes_of_kind(events.drop_last(), k) + if events.last().event.kind == k {
            events.last().encoded@.len() as int
        } else {
            0int
        }
    }
}

proof fn lemma_sum_encoded_take_le(events: Seq<EncodedEvent>, j: int)
    requires
        0 <= j <= events.len(),
    ensures
        sum_encoded(events.take(j)) <= sum_encoded(events),
    decreases events.len() - j,
{
    if j == events.len() {
        assert(events.take(j) =~= events);
    } else {
        assert(events.take(j + 1).drop_last() =~= events.take(j));
        lemma_sum_encoded_take_le(events, j + 1);
    }
}

/// Aggregate counters of one request, derived from its batch and never
/// mutated after construction. `payload_size` is the framed, pre-compression
/// payload length; `transmitted_size` the final size handed to the service.
#[derive(Clone, Copy, PartialEq, Eq, Structural, Debug)]
pub struct RequestMetadata {
    pub event_count: usize,
    pub events_encoded_size: usize,
    pub payload_size: usize,
    pub transmitted_size: usize,
    pub grouped: GroupedSizes,
}

/// Computes the aggregate counters of one batch: the event count, the
/// pre-framing size sum and the per-class breakdown, with the payload sizes
/// recorded as given.
pub fn metadata_for(
    events: &Vec<EncodedEvent>,
    payload_size: usize,
    transmitted_size: usize,
) -> (r: RequestMetadata)
    requires
        sum_encoded(events@) <= usize::MAX,
    ensures
        r.event_count == events@.len(),
        r.events_encoded_size == sum_encoded(events@),
        r.payload_size == payload_size,
        r.transmitted_size == transmitted_size,
        r.grouped.log_count == count_of_kind(events@, EventKind::Log),
        r.grouped.log_bytes == bytes_of_kind(events@, EventKind::Log),
        r.grouped.metric_count == count_of_kind(events@, EventKind::Metric),
        r.grouped.metric_bytes == bytes_of_kind(events@, EventKind::Metric),
        r.grouped.trace_count == count_of_kind(events@, EventKind::Trace),
        r.grouped.trace_bytes == bytes_of_kind(events@, EventKind::Trace),
{
    let mut g = GroupedSizes {
        log_count: 0,
        log_bytes: 0,
        metric_count: 0,
        metric_bytes: 0,
        trace_count: 0,
        trace_bytes: 0,
    };
    let mut total: usize = 0;
    let mut i: usize = 0;
    let n = events.len();
    while i < n
        invariant
            n == events@.len(),
            i <= n,
            sum_encoded(events@) <= usize::MAX,
            total == sum_encoded(events@.take(i as int)),
            g.log_bytes + g.metric_bytes + g.trace_bytes == total,
            g.log_count == count_of_kind(events@.take(i as int), EventKind::Log),
            g.log_bytes == bytes_of_kind(events@.take(i as int), EventKind::Log),
            g.metric_count == count_of_kind(events@.take(i as int), EventKind::Metric),
            g.metric_bytes == bytes_of_kind(events@.take(i as int), EventKind::Metric),
            g.trace_count == count_of_kind(events@.take(i as int), EventKind::Trace),
            g.trace_bytes == bytes_of_kind(events@.take(i as int), EventKind::Trace),
            g.log_count + g.metric_count + g.trace_count == i,
        decreases n - i,
    {
        proof {
            assert(events@.take(i + 1 as int).drop_last() =~= events@.take(i as int));
            assert(events@.take(i + 1 as int).last() == events@[i as int]);
            lemma_sum_encoded_take_le(events@, i + 1);
        }
        let sz = events[i].encoded.len();
        match events[i].event.kind {
            EventKind::Log => {
                g.log_count = g.log_count + 1;
                g.log_bytes = g.log_bytes + sz;
            },
            EventKind::Metric => {
                g.metric_count = g.metric_count + 1;
                g.metric_bytes = g.metric_bytes + sz;
            },
            EventKind::Trace => {
                g.trace_count = g.trace_count + 1;
                g.trace_bytes = g.trace_bytes + sz;
            },
        }
        total = total + sz;
        i += 1;
    }
    proof {
        assert(events@.take(n as int) =~= events@);
    }
    RequestMetadata {
        event_count: n,
        events_encoded_size: total,
        payload_size,
        transmitted_size,
        grouped: g,
    }
}

} // verus!
