use vstd::prelude::*;
use crate::partition::{PartitionKey, PartitionKeyV, clone_opt_string};

verus! {

/// Telemetry class of an event, used for the per-class size breakdown.
#[derive(Clone, Copy, PartialEq, Eq, Structural, Debug)]
pub enum EventKind {
    Log,
    Metric,
    Trace,
}

/// One structured record. `finalizer_id` is the acknowledgment ticket handed
/// back to the producer exactly once, with the event's delivery outcome.
/// `key_prefix` is the routing field; an event without one cannot be routed.
pub struct Event {
    pub finalizer_id: u64,
    pub kind: EventKind,
    pub key_prefix: Option<String>,
    pub ssekms_key_id: Option<String>,
}

/// Mathematical value of an `Event`.
#[verifier::ext_equal]
pub struct EventV {
    pub finalizer_id: u64,
    pub kind: EventKind,
    pub key_prefix: Option<Seq<char>>,
    pub ssekms_key_id: Option<Seq<char>>,
}

impl View for Event {
    type V = EventV;

    open spec fn view(&self) -> EventV {
        EventV {
            finalizer_id: self.finalizer_id,
            kind: self.kind,
            key_prefix: match self.key_prefix {
                Some(ref s) => Some(s@),
                None => None,
            },
            ssekms_key_id: match self.ssekms_key_id {
                Some(ref s) => Some(s@),
                None => None,
            },
        }
    }
}

/// The partition key an event routes to, if any: the routing prefix together
/// with the key's other routing-relevant field.
pub open spec fn route_of(e: EventV) -> Option<PartitionKeyV> {
    match e.key_prefix {
        Some(p) => Some(PartitionKeyV { key_prefix: p, ssekms_key_id: e.ssekms_key_id }),
        None => None,
    }
}

/// The partitioner: a pure map from an event to its optional partition key.
/// Structurally equal events yield equal keys; an unroutable event yields none.
pub fn partition(e: &Event) -> (r: Option<PartitionKey>)
    ensures
        r matches Some(k) ==> route_of(e@) == Some(k@),
        r is None <==> route_of(e@) is None,
{
    match &e.key_prefix {
        Some(p) => {
            let k = PartitionKey {
                key_prefix: p.clone(),
                ssekms_key_id: clone_opt_string(&e.ssekms_key_id),
            };
            proof {
                assert(route_of(e@) == Some(k@));
            }
            Some(k)
        },
        None => None,
    }
}

/// Finalizer tickets of a sequence of encoded events, in order.
pub open spec fn ids_of(events: Seq<EncodedEvent>) -> Seq<u64> {
    events.map_values(|e: EncodedEvent| e.event.finalizer_id)
}

/// Sum of the encoded sizes of a sequence of encoded events.
pub open spec fn sum_encoded(events: Seq<EncodedEvent>) -> int
    decreases events.len(),
{
    if events.len() == 0 {
        0
    } else {
        sum_encoded(events.drop_last()) + events.last().encoded@.len()
    }
}

pub proof fn lemma_sum_encoded_push(events: Seq<EncodedEvent>, e: EncodedEvent)
    ensures
        sum_encoded(events.push(e)) == sum_encoded(events) + e.encoded@.len(),
{
    assert(events.push(e).drop_last() =~= events);
}

/// An event paired with its serialized byte form. The original event is kept
/// beside the bytes so its finalizer ticket stays reachable downstream.
pub struct EncodedEvent {
    pub event: Event,
    pub encoded: Vec<u8>,
}

impl EncodedEvent {
    /// Size of the encoded form, in bytes.
    pub fn size_of(&self) -> (r: usize)
        ensures
            r == self.encoded@.len(),
    {
        self.allocated_bytes()
    }

    /// Bytes held by the encoded buffer.
    pub fn allocated_bytes(&self) -> (r: usize)
        ensures
            r == self.encoded@.len(),
    {
        self.encoded.len()
    }
}

} // verus!
