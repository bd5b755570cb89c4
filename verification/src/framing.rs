use vstd::prelude::*;
use bytes::BytesMut;
use crate::buffer::{bytes_mut_contents, bytes_mut_new, bytes_mut_extend};
use crate::event::EncodedEvent;

verus! {

/// Byte-level framing of a batch payload: a fixed prefix, a separator placed
/// between two consecutive event bodies (never after the last), and a fixed
/// suffix.
pub struct Framing {
    pub prefix: Vec<u8>,
    pub separator: Vec<u8>,
    pub suffix: Vec<u8>,
}

/// The event bodies of a batch, in batch order.
pub open spec fn bodies_of(events: Seq<EncodedEvent>) -> Seq<Seq<u8>> {
    events.map_values(|e: EncodedEvent| e.encoded@)
}

/// The bodies concatenated with `sep` between consecutive bodies only.
pub open spec fn joined(bodies: Seq<Seq<u8>>, sep: Seq<u8>) -> Seq<u8>
    decreases bodies.len(),
{
    if bodies.len() == 0 {
        Seq::<u8>::empty()
    } else if bodies.len() == 1 {
        bodies.last()
    } else {
        joined(bodies.drop_last(), sep) + sep + bodies.last()
    }
}

/// The full framed payload of a batch.
pub open spec fn framed(f: Framing, bodies: Seq<Seq<u8>>) -> Seq<u8> {
    f.prefix@ + joined(bodies, f.separator@) + f.suffix@
}

/// Sum of the body lengths.
pub open spec fn sum_body_len(bodies: Seq<Seq<u8>>) -> int
    decreases bodies.len(),
{
    if bodies.len() == 0 {
        0
    } else {
        sum_body_len(bodies.drop_last()) + bodies.last().len()
    }
}

/// Framing emits each body once and a separator between consecutive bodies
/// only: the joined bytes of `n` bodies hold exactly `n - 1` separators for
/// `n >= 1`, and none for a single body or an empty batch.
pub proof fn lemma_joined_len(bodies: Seq<Seq<u8>>, sep: Seq<u8>)
    ensures
        bodies.len() == 0 ==> joined(bodies, sep).len() == 0,
        bodies.len() >= 1 ==> joined(bodies, sep).len() == sum_body_len(bodies) + (
        bodies.len() - 1) * sep.len(),
    decreases bodies.len(),
{
    if bodies.len() == 1 {
        assert(sum_body_len(bodies.drop_last()) == 0);
    } else if bodies.len() > 1 {
        lemma_joined_len(bodies.drop_last(), sep);
        let l = bodies.len() as int;
        let s = sep.len() as int;
        assert((l - 2) * s + s == (l - 1) * s) by (nonlinear_arith);
    }
}

/// The framed payload of `n >= 1` bodies holds one prefix, the bodies, the
/// `n - 1` separators and one suffix, and nothing else.
pub proof fn lemma_framed_len(f: Framing, bodies: Seq<Seq<u8>>)
    requires
        bodies.len() >= 1,
    ensures
        framed(f, bodies).len() == f.prefix@.len() + sum_body_len(bodies) + (bodies.len() - 1)
            * f.separator@.len() + f.suffix@.len(),
{
    lemma_joined_len(bodies, f.separator@);
}

/// Concatenates the encoded events into one framed payload: prefix, then each
/// body with the separator between consecutive bodies, then the suffix.
pub fn prepare_payload(f: &Framing, events: &Vec<EncodedEvent>) -> (r: BytesMut)
    ensures
        bytes_mut_contents(r) == framed(*f, bodies_of(events@)),
{
    let mut payload = bytes_mut_new();
    bytes_mut_extend(&mut payload, f.prefix.as_slice());
    let n = events.len();
    let mut i: usize = 0;
    while i < n
        invariant
            n == events@.len(),
            i <= n,
            bytes_mut_contents(payload) == f.prefix@ + joined(
                bodies_of(events@.take(i as int)),
                f.separator@,
            ),
        decreases n - i,
    {
        if i > 0 {
            bytes_mut_extend(&mut payload, f.separator.as_slice());
        }
        bytes_mut_extend(&mut payload, events[i].encoded.as_slice());
        proof {
            let pre = bodies_of(events@.take(i as int));
            let post = bodies_of(events@.take(i + 1 as int));
            assert(post.drop_last() =~= pre);
            assert(post.last() == events@[i as int].encoded@);
        }
        i += 1;
    }
    bytes_mut_extend(&mut payload, f.suffix.as_slice());
    proof {
        assert(events@.take(n as int) =~= events@);
    }
    payload
}

} // verus!
