use vstd::prelude::*;
use crate::event::{EncodedEvent, route_of, sum_encoded, lemma_sum_encoded_push};
use crate::partition::{PartitionKey, PartitionKeyV, key_eq};

verus! {

/// Bounds after which an open batch is flushed: a maximum event count, a
/// maximum cumulative byte size, and a maximum age since the batch's first
/// event.
#[derive(Clone, Copy, PartialEq, Eq, Structural, Debug)]
pub struct BatcherSettings {
    pub max_events: usize,
    pub max_bytes: usize,
    pub timeout_ms: u64,
}

impl BatcherSettings {
    pub open spec fn wf(self) -> bool {
        self.max_events >= 1 && self.max_bytes >= 1
    }
}

/// A flushed batch: same-key encoded events in arrival order.
pub struct Batch {
    pub key: PartitionKey,
    pub events: Vec<EncodedEvent>,
}

impl Batch {
    /// Every event of the batch routes to the batch's own key.
    pub open spec fn pure(self) -> bool {
        forall|j: int|
            0 <= j < self.events@.len() ==> route_of(
                #[trigger] self.events@[j].event@,
            ) == Some(self.key@)
    }
}

/// A batch is at a flush bound: its count reaches the count bound, or its
/// encoded bytes reach the byte bound. The batcher emits a batch mid-run
/// exactly when a push brings it to a bound; batches still under both
/// bounds flush only at end of input.
pub open spec fn at_bound(b: Batch, settings: BatcherSettings) -> bool {
    b.events@.len() >= settings.max_events || sum_encoded(b.events@) >= settings.max_bytes
}

/// A batch still accumulating events for one partition key.
pub struct OpenBatch {
    pub key: PartitionKey,
    pub events: Vec<EncodedEvent>,
    pub bytes: usize,
    pub opened_at_ms: u64,
}

impl OpenBatch {
    pub open spec fn wf(self, settings: BatcherSettings) -> bool {
        &&& self.events@.len() >= 1
        &&& self.events@.len() < settings.max_events
        &&& self.bytes == sum_encoded(self.events@)
        &&& self.bytes < settings.max_bytes
        &&& forall|j: int|
            0 <= j < self.events@.len() ==> route_of(
                #[trigger] self.events@[j].event@,
            ) == Some(self.key@)
    }
}

/// No two open batches share a partition key.
pub open spec fn unique_keys(open: Seq<OpenBatch>) -> bool {
    forall|i: int, j: int|
        0 <= i < j < open.len() ==> (#[trigger] open[i].key@) != (#[trigger] open[j].key@)
}

/// The events buffered for key `k`, in arrival order, over all open batches.
pub open spec fn open_for_key(open: Seq<OpenBatch>, k: PartitionKeyV) -> Seq<EncodedEvent>
    decreases open.len(),
{
    if open.len() == 0 {
        Seq::<EncodedEvent>::empty()
    } else if open.last().key@ == k {
        open_for_key(open.drop_last(), k) + open.last().events@
    } else {
        open_for_key(open.drop_last(), k)
    }
}

/// Count of all buffered events, over all open batches.
pub open spec fn open_count(open: Seq<OpenBatch>) -> int
    decreases open.len(),
{
    if open.len() == 0 {
        0
    } else {
        open_count(open.drop_last()) + open.last().events@.len()
    }
}

pub proof fn lemma_open_for_key_absent(open: Seq<OpenBatch>, k: PartitionKeyV)
    requires
        forall|i: int| 0 <= i < open.len() ==> (#[trigger] open[i].key@) != k,
    ensures
        open_for_key(open, k) == Seq::<EncodedEvent>::empty(),
    decreases open.len(),
{
    if open.len() > 0 {
        lemma_open_for_key_absent(open.drop_last(), k);
    }
}

pub proof fn lemma_open_for_key_at(open: Seq<OpenBatch>, k: PartitionKeyV, j: int)
    requires
        unique_keys(open),
        0 <= j < open.len(),
        open[j].key@ == k,
    ensures
        open_for_key(open, k) == open[j].events@,
    decreases open.len(),
{
    if j == open.len() - 1 {
        assert forall|i: int| 0 <= i < open.drop_last().len() implies (
        #[trigger] open.drop_last()[i].key@) != k by {
            assert(open[i].key@ != open[j].key@);
        }
        lemma_open_for_key_absent(open.drop_last(), k);
        assert(Seq::<EncodedEvent>::empty() + open.last().events@ =~= open.last().events@);
    } else {
        assert(open.last().key@ != k);
        lemma_open_for_key_at(open.drop_last(), k, j);
    }
}

/// The per-key batcher: an index from partition key to the batch currently
/// accumulating that key's events.
pub struct Batcher {
    pub settings: BatcherSettings,
    pub open: Vec<OpenBatch>,
}

impl Batcher {
    pub open spec fn wf(self) -> bool {
        &&& self.settings.wf()
        &&& unique_keys(self.open@)
        &&& forall|i: int|
            0 <= i < self.open@.len() ==> (#[trigger] self.open@[i]).wf(self.settings)
    }

    pub fn new(settings: BatcherSettings) -> (r: Batcher)
        requires
            settings.wf(),
        ensures
            r.wf(),
            r.settings == settings,
            r.open@.len() == 0,
    {
        Batcher { settings, open: Vec::new() }
    }

    fn find_open(open: &Vec<OpenBatch>, key: &PartitionKey) -> (r: Option<usize>)
        ensures
            match r {
                Some(i) => i < open@.len() && open@[i as int].key@ == key@,
                None => forall|j: int| 0 <= j < open@.len() ==> (#[trigger] open@[j].key@) != key@,
            },
    {
        let mut i: usize = 0;
        while i < open.len()
            invariant
                i <= open@.len(),
                forall|j: int| 0 <= j < i ==> (#[trigger] open@[j].key@) != key@,
            decreases open@.len() - i,
        {
            if key_eq(&open[i].key, key) {
                return Some(i);
            }
            i += 1;
        }
        None
    }

    /// Adds one routed event under its key. Returns the key's batch the
    /// moment the count bound or the byte bound is hit; otherwise the event
    /// stays buffered. A batch flushes with the events of exactly one key,
    /// in arrival order.
    pub fn push(&mut self, key: PartitionKey, item: EncodedEvent, now_ms: u64) -> (r: Option<
        Batch,
    >)
        requires
            old(self).wf(),
            route_of(item.event@) == Some(key@),
            item.encoded@.len() + old(self).settings.max_bytes <= usize::MAX,
        ensures
            final(self).wf(),
            final(self).settings == old(self).settings,
            r matches Some(b) ==> b.pure() && b.events@.len() >= 1,
            // the key was not yet open
            (forall|i: int|
                0 <= i < old(self).open@.len() ==> (#[trigger] old(self).open@[i].key@)
                    != key@) ==> if old(self).settings.max_events <= 1 || item.encoded@.len()
                >= old(self).settings.max_bytes {
                &&& r matches Some(b) && b.key == key && b.events@ == seq![item]
                &&& final(self).open@ == old(self).open@
            } else {
                &&& r is None
                &&& final(self).open@.len() == old(self).open@.len() + 1
                &&& final(self).open@.drop_last() == old(self).open@
                &&& final(self).open@.last().key == key
                &&& final(self).open@.last().events@ == seq![item]
                &&& final(self).open@.last().opened_at_ms == now_ms
            },
            // the key was open at index i
            forall|i: int|
                0 <= i < old(self).open@.len() && (#[trigger] old(self).open@[i].key@) == key@
                    ==> if old(self).open@[i].events@.len() + 1 >= old(
                    self,
                ).settings.max_events || old(self).open@[i].bytes + item.encoded@.len() >= old(
                    self,
                ).settings.max_bytes {
                    &&& r matches Some(b) && b.key == old(self).open@[i].key && b.events@ == old(
                        self,
                    ).open@[i].events@.push(item)
                    &&& final(self).open@ == old(self).open@.remove(i)
                } else {
                    &&& r is None
                    &&& final(self).open@.len() == old(self).open@.len()
                    &&& final(self).open@[i].key == old(self).open@[i].key
                    &&& final(self).open@[i].events@ == old(self).open@[i].events@.push(item)
                    &&& final(self).open@[i].opened_at_ms == old(self).open@[i].opened_at_ms
                    &&& forall|l: int|
                        0 <= l < old(self).open@.len() && l != i ==> final(self).open@[l] == old(
                            self,
                        ).open@[l]
                },
    {
        let item_len = item.encoded.len();
        match Self::find_open(&self.open, &key) {
            None => {
                if self.settings.max_events <= 1 || item_len >= self.settings.max_bytes {
                    let mut events: Vec<EncodedEvent> = Vec::new();
                    events.push(item);
                    Some(Batch { key, events })
                } else {
                    let mut events: Vec<EncodedEvent> = Vec::new();
                    events.push(item);
                    let entry = OpenBatch { key, events, bytes: item_len, opened_at_ms: now_ms };
                    proof {
                        assert(sum_encoded(entry.events@.drop_last()) == 0);
                    }
                    self.open.push(entry);
                    None
                }
            },
            Some(i) => {
                let mut entry = self.open.remove(i);
                entry.events.push(item);
                entry.bytes = entry.bytes + item_len;
                proof {
                    lemma_sum_encoded_push(old(self).open@[i as int].events@, item);
                }
                if entry.events.len() >= self.settings.max_events || entry.bytes
                    >= self.settings.max_bytes {
                    proof {
                        assert forall|l: int, m: int|
                            0 <= l < m < self.open@.len() implies (#[trigger] self.open@[l].key@)
                            != (#[trigger] self.open@[m].key@) by {
                            let o = old(self).open@;
                            if m < i {
                                assert(self.open@[l] == o[l] && self.open@[m] == o[m]);
                            } else if l < i {
                                assert(self.open@[l] == o[l] && self.open@[m] == o[m + 1]);
                            } else {
                                assert(self.open@[l] == o[l + 1] && self.open@[m] == o[m + 1]);
                            }
                        }
                    }
                    Some(Batch { key: entry.key, events: entry.events })
                } else {
                    self.open.insert(i, entry);
                    proof {
                        assert(self.open@ =~= old(self).open@.update(
                            i as int,
                            self.open@[i as int],
                        ));
                    }
                    None
                }
            },
        }
    }

    /// Flushes every open batch at end of input: each key with buffered
    /// events becomes exactly one batch, and no event stays buffered.
    pub fn finish(&mut self) -> (r: Vec<Batch>)
        requires
            old(self).wf(),
        ensures
            final(self).wf(),
            final(self).settings == old(self).settings,
            final(self).open@.len() == 0,
            r@.len() == old(self).open@.len(),
            forall|i: int|
                0 <= i < r@.len() ==> (#[trigger] r@[i]).key == old(self).open@[i].key
                    && r@[i].events == old(self).open@[i].events,
    {
        let ghost orig = self.open@;
        let mut flushed: Vec<Batch> = Vec::new();
        let mut k: usize = 0;
        let n: usize = self.open.len();
        while self.open.len() > 0
            invariant
                k + self.open@.len() == n,
                n == orig.len(),
                self.open@ == orig.skip(k as int),
                self.settings == old(self).settings,
                flushed@.len() == k,
                forall|i: int|
                    0 <= i < k ==> (#[trigger] flushed@[i]).key == orig[i].key
                        && flushed@[i].events == orig[i].events,
            decreases self.open@.len(),
        {
            let ob = self.open.remove(0);
            proof {
                assert(ob == orig[k as int]);
                assert(self.open@ =~= orig.skip(k + 1 as int));
            }
            flushed.push(Batch { key: ob.key, events: ob.events });
            k += 1;
        }
        flushed
    }

    /// Flushes every open batch whose first event is at least the timeout
    /// old at `now_ms`, keeping the others, in order.
    pub fn expire(&mut self, now_ms: u64) -> (r: Vec<Batch>)
        requires
            old(self).wf(),
        ensures
            final(self).wf(),
            final(self).settings == old(self).settings,
            final(self).open@ == keep_open(old(self).open@, now_ms, old(self).settings.timeout_ms),
            r@.len() == flush_due(old(self).open@, now_ms, old(self).settings.timeout_ms).len(),
            forall|i: int|
                0 <= i < r@.len() ==> (#[trigger] r@[i]).key == flush_due(
                    old(self).open@,
                    now_ms,
                    old(self).settings.timeout_ms,
                )[i].key && r@[i].events == flush_due(
                    old(self).open@,
                    now_ms,
                    old(self).settings.timeout_ms,
                )[i].events,
    {
        let ghost orig = self.open@;
        let ghost osettings = self.settings;
        let timeout = self.settings.timeout_ms;
        let mut remaining: Vec<OpenBatch> = Vec::new();
        let mut flushed: Vec<Batch> = Vec::new();
        let mut k: usize = 0;
        let n: usize = self.open.len();
        while self.open.len() > 0
            invariant
                unique_keys(orig),
                osettings.wf(),
                forall|i: int| 0 <= i < orig.len() ==> (#[trigger] orig[i]).wf(osettings),
                k + self.open@.len() == n,
                n == orig.len(),
                self.open@ == orig.skip(k as int),
                self.settings == osettings,
                timeout == self.settings.timeout_ms,
                remaining@ == keep_open(orig.take(k as int), now_ms, timeout),
                forall|l: int, m: int|
                    0 <= l < remaining@.len() && k <= m < n ==> (#[trigger] remaining@[l].key@)
                        != (#[trigger] orig[m].key@),
                forall|l1: int, l2: int|
                    0 <= l1 < l2 < remaining@.len() ==> (#[trigger] remaining@[l1].key@) != (
                    #[trigger] remaining@[l2].key@),
                forall|l: int|
                    0 <= l < remaining@.len() ==> (#[trigger] remaining@[l]).wf(self.settings),
                flushed@.len() == flush_due(orig.take(k as int), now_ms, timeout).len(),
                forall|l: int|
                    0 <= l < flushed@.len() ==> (#[trigger] flushed@[l]).key == flush_due(
                        orig.take(k as int),
                        now_ms,
                        timeout,
                    )[l].key && flushed@[l].events == flush_due(
                        orig.take(k as int),
                        now_ms,
                        timeout,
                    )[l].events,
            decreases self.open@.len(),
        {
            let ob = self.open.remove(0);
            proof {
                assert(ob == orig[k as int]);
                assert(self.open@ =~= orig.skip(k + 1 as int));
                assert(orig.take(k + 1 as int).drop_last() =~= orig.take(k as int));
                assert(orig.take(k + 1 as int).last() == orig[k as int]);
            }
            let is_due = now_ms >= ob.opened_at_ms && now_ms - ob.opened_at_ms >= timeout;
            if is_due {
                flushed.push(Batch { key: ob.key, events: ob.events });
            } else {
                remaining.push(ob);
                proof {
                    assert(remaining@.last() == orig[k as int]);
                    assert(orig[k as int].wf(osettings));
                    assert forall|l: int, m: int|
                        0 <= l < remaining@.len() && k + 1 <= m < n implies (
                    #[trigger] remaining@[l].key@) != (#[trigger] orig[m].key@) by {
                        if l < remaining@.len() - 1 {
                            assert(remaining@[l].key@ != orig[m].key@);
                        } else {
                            assert(unique_keys(orig));
                            assert(orig[k as int].key@ != orig[m].key@);
                        }
                    }
                }
            }
            k += 1;
        }
        proof {
            assert(orig.take(n as int) =~= orig);
        }
        self.open = remaining;
        flushed
    }
}

/// The open batches not yet due at `now_ms`, in order.
pub open spec fn keep_open(open: Seq<OpenBatch>, now_ms: u64, timeout_ms: u64) -> Seq<OpenBatch>
    decreases open.len(),
{
    if open.len() == 0 {
        Seq::<OpenBatch>::empty()
    } else if due(open.last(), now_ms, timeout_ms) {
        keep_open(open.drop_last(), now_ms, timeout_ms)
    } else {
        keep_open(open.drop_last(), now_ms, timeout_ms).push(open.last())
    }
}

/// The open batches due at `now_ms`, in order.
pub open spec fn flush_due(open: Seq<OpenBatch>, now_ms: u64, timeout_ms: u64) -> Seq<OpenBatch>
    decreases open.len(),
{
    if open.len() == 0 {
        Seq::<OpenBatch>::empty()
    } else if due(open.last(), now_ms, timeout_ms) {
        flush_due(open.drop_last(), now_ms, timeout_ms).push(open.last())
    } else {
        flush_due(open.drop_last(), now_ms, timeout_ms)
    }
}

/// An open batch is due when the time since its first event reaches the
/// timeout.
pub open spec fn due(ob: OpenBatch, now_ms: u64, timeout_ms: u64) -> bool {
    now_ms >= ob.opened_at_ms && now_ms - ob.opened_at_ms >= timeout_ms
}

} // verus!
