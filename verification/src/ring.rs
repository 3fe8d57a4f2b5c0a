use vstd::prelude::*;

use rtrb::{Consumer, Producer, RingBuffer};

verus! {

#[verifier::external_type_specification]
#[verifier::external_body]
#[verifier::reject_recursive_types(T)]
pub struct ExProducer<T>(Producer<T>);

#[verifier::external_type_specification]
#[verifier::external_body]
#[verifier::reject_recursive_types(T)]
pub struct ExConsumer<T>(Consumer<T>);

/// The number of slots of the ring buffer that `p` writes into (fixed at creation).
pub uninterp spec fn ring_capacity(p: Producer<u8>) -> nat;

/// Every byte that `p` has committed to its ring buffer since it was created, oldest first.
pub uninterp spec fn ring_sent(p: Producer<u8>) -> Seq<u8>;

/// How many slots of the ring buffer that `p` writes into are free.
///
/// The consumer may free slots on another thread at any moment, so every contract
/// below only promises that this number does not shrink except by what `p` writes.
pub uninterp spec fn ring_free(p: Producer<u8>) -> nat;

/// The bytes that `c` can read from its ring buffer, oldest first.
///
/// The producer may commit more bytes on another thread at any moment, so every
/// contract below only promises that this sequence grows at its end between two
/// calls, never that it stays the same.
pub uninterp spec fn ring_readable(c: Consumer<u8>) -> Seq<u8>;

/// The slot of its ring buffer at which `c` reads next: below the buffer's
/// capacity, or 0 when the buffer has no slots. Only `c` moves it.
pub uninterp spec fn ring_read_pos(c: Consumer<u8>) -> nat;

/// The number of slots of the ring buffer that `c` reads from (fixed at creation).
pub uninterp spec fn ring_read_capacity(c: Consumer<u8>) -> nat;

/// Whether the producer half of `c`'s ring buffer is dropped at some point: once
/// dropped it stays dropped, so this does not depend on when it is asked.
pub uninterp spec fn ring_abandoned(c: Consumer<u8>) -> bool;

/// Every byte that is ever committed to the ring buffer that `p` writes into, over
/// the buffer's whole life, oldest first. What `p` has committed so far is a prefix
/// of it; like `ring_abandoned`, it does not depend on when it is asked.
pub uninterp spec fn ring_stream(p: Producer<u8>) -> Seq<u8>;

/// Whether the producer `p` is dropped at some point: once dropped it stays
/// dropped, so this does not depend on when it is asked.
pub uninterp spec fn ring_producer_dropped(p: Producer<u8>) -> bool;

/// Every byte that is ever committed to the ring buffer that `c` reads from, over
/// the buffer's whole life, oldest first (`ring_stream` of its producer).
pub uninterp spec fn ring_source(c: Consumer<u8>) -> Seq<u8>;

/// Every byte that `c` has consumed since its ring buffer was created, oldest
/// first. The consumed bytes followed by the readable ones are a prefix of
/// `ring_source`.
pub uninterp spec fn ring_taken(c: Consumer<u8>) -> Seq<u8>;

/// What the last `Consumer::is_abandoned` call made through `c` returned (`false`
/// before the first): once `true` it stays `true`, as the flag it reads is never
/// cleared.
pub uninterp spec fn ring_abandon_seen(c: Consumer<u8>) -> bool;

/// `rtrb::RingBuffer::new`: a fresh ring buffer of `capacity` bytes, split into
/// its producer and consumer halves. Nothing has been written or can be read yet.
/// It panics when `capacity * 2` overflows, which `requires` leaves out.
#[verifier::external_body]
pub(crate) fn ring_new(capacity: usize) -> (r: (Producer<u8>, Consumer<u8>))
    requires
        capacity <= usize::MAX / 2,
    ensures
        ring_capacity(r.0) == capacity,
        ring_sent(r.0) == Seq::<u8>::empty(),
        ring_free(r.0) == capacity,
        ring_readable(r.1) == Seq::<u8>::empty(),
        ring_read_pos(r.1) == 0,
        ring_read_capacity(r.1) == capacity,
        ring_source(r.1) == ring_stream(r.0),
        ring_taken(r.1) == Seq::<u8>::empty(),
        ring_abandoned(r.1) == ring_producer_dropped(r.0),
        !ring_abandon_seen(r.1),
{
    RingBuffer::new(capacity)
}

/// `rtrb::Producer::push_entire_slice`: commits all of `data` at once when that
/// many slots are free, and nothing otherwise. Free slots never exceed the
/// capacity, and the consumer can only add to them.
#[verifier::external_body]
pub(crate) fn ring_push_slice(p: &mut Producer<u8>, data: &[u8]) -> (ok: bool)
    ensures
        ring_capacity(*final(p)) == ring_capacity(*old(p)),
        ring_free(*final(p)) <= ring_capacity(*final(p)),
        data@.len() <= ring_free(*old(p)) ==> ok,
        ok ==> data@.len() <= ring_capacity(*old(p)),
        ok ==> ring_sent(*final(p)) == ring_sent(*old(p)) + data@,
        ok ==> ring_free(*final(p)) + data@.len() >= ring_free(*old(p)),
        !ok ==> ring_sent(*final(p)) == ring_sent(*old(p)),
        !ok ==> ring_free(*final(p)) >= ring_free(*old(p)),
        !ok ==> data@.len() > ring_free(*final(p)),
        ring_stream(*final(p)) == ring_stream(*old(p)),
        ring_sent(*final(p)).is_prefix_of(ring_stream(*final(p))),
        ring_producer_dropped(*final(p)) == ring_producer_dropped(*old(p)),
    no_unwind
{
    p.push_entire_slice(data).is_ok()
}

/// `rtrb::Producer::slots`: how many slots are free for writing now.
#[verifier::external_body]
pub(crate) fn ring_free_slots(p: &mut Producer<u8>) -> (n: usize)
    ensures
        ring_capacity(*final(p)) == ring_capacity(*old(p)),
        ring_sent(*final(p)) == ring_sent(*old(p)),
        ring_free(*final(p)) >= ring_free(*old(p)),
        ring_free(*final(p)) <= ring_capacity(*final(p)),
        n == ring_free(*final(p)),
        ring_stream(*final(p)) == ring_stream(*old(p)),
        ring_producer_dropped(*final(p)) == ring_producer_dropped(*old(p)),
    no_unwind
{
    p.slots()
}

/// `rtrb::Consumer::slots`: how many bytes can be read now.
#[verifier::external_body]
pub(crate) fn ring_slots(c: &mut Consumer<u8>) -> (n: usize)
    ensures
        ring_readable(*old(c)).is_prefix_of(ring_readable(*final(c))),
        ring_read_pos(*final(c)) == ring_read_pos(*old(c)),
        ring_read_capacity(*final(c)) == ring_read_capacity(*old(c)),
        ring_abandoned(*final(c)) == ring_abandoned(*old(c)),
        n == ring_readable(*final(c)).len(),
        ring_taken(*final(c)) == ring_taken(*old(c)),
        ring_source(*final(c)) == ring_source(*old(c)),
        ring_abandon_seen(*final(c)) == ring_abandon_seen(*old(c)),
        (ring_taken(*final(c)) + ring_readable(*final(c))).is_prefix_of(ring_source(*final(c))),
{
    c.slots()
}

/// `rtrb::Consumer::read_chunk` followed by `ReadChunk::as_slices`, without a commit:
/// copies the first `n` readable bytes, as the two slices in which the ring holds
/// them, and consumes nothing. `None` when fewer than `n` bytes are readable. The
/// first slice runs from the read position to the end of the buffer, or holds all
/// `n` bytes when they fit before it.
#[verifier::external_body]
pub(crate) fn ring_peek(c: &mut Consumer<u8>, n: usize) -> (r: Option<(Vec<u8>, Vec<u8>)>)
    ensures
        ring_readable(*old(c)).is_prefix_of(ring_readable(*final(c))),
        ring_read_pos(*final(c)) == ring_read_pos(*old(c)),
        ring_read_capacity(*final(c)) == ring_read_capacity(*old(c)),
        ring_abandoned(*final(c)) == ring_abandoned(*old(c)),
        r matches Some((first, _)) ==> (ring_read_pos(*old(c)) <= ring_read_capacity(*old(c)) ==> first@.len()
            == (if n + ring_read_pos(*old(c)) <= ring_read_capacity(*old(c)) {
            n as nat
        } else {
            (ring_read_capacity(*old(c)) - ring_read_pos(*old(c))) as nat
        })),
        match r {
            Some((first, second)) => {
                &&& n <= ring_readable(*final(c)).len()
                &&& first@ + second@ == ring_readable(*final(c)).take(n as int)
            },
            None => ring_readable(*final(c)).len() < n,
        },
        ring_taken(*final(c)) == ring_taken(*old(c)),
        ring_source(*final(c)) == ring_source(*old(c)),
        ring_abandon_seen(*final(c)) == ring_abandon_seen(*old(c)),
        (ring_taken(*final(c)) + ring_readable(*final(c))).is_prefix_of(ring_source(*final(c))),
{
    match c.read_chunk(n) {
        Ok(chunk) => {
            let (first, second) = chunk.as_slices();
            Some((first.to_vec(), second.to_vec()))
        },
        Err(_) => None,
    }
}

/// `rtrb::Consumer::read_chunk` followed by `ReadChunk::commit_all`: drops the first
/// `n` readable bytes, making their slots free for the producer again, and moves
/// the read position `n` slots on, round the buffer.
#[verifier::external_body]
pub(crate) fn ring_consume(c: &mut Consumer<u8>, n: usize)
    requires
        n <= ring_readable(*old(c)).len(),
    ensures
        ring_readable(*old(c)).skip(n as int).is_prefix_of(ring_readable(*final(c))),
        ring_read_capacity(*final(c)) == ring_read_capacity(*old(c)),
        ring_abandoned(*final(c)) == ring_abandoned(*old(c)),
        ring_read_capacity(*old(c)) > 0 ==> ring_read_pos(*final(c)) == (ring_read_pos(*old(c)) + n as nat)
            % ring_read_capacity(*old(c)),
        ring_read_capacity(*old(c)) == 0 ==> ring_read_pos(*final(c)) == ring_read_pos(*old(c)),
        ring_taken(*final(c)) == ring_taken(*old(c)) + ring_readable(*old(c)).take(n as int),
        ring_source(*final(c)) == ring_source(*old(c)),
        ring_abandon_seen(*final(c)) == ring_abandon_seen(*old(c)),
        (ring_taken(*final(c)) + ring_readable(*final(c))).is_prefix_of(ring_source(*final(c))),
{
    if let Ok(chunk) = c.read_chunk(n) {
        chunk.commit_all();
    }
}

/// `rtrb::Consumer::is_empty`: whether no byte is readable. When none was known
/// readable it looks again at what the producer has committed, so the answer is
/// about the bytes known readable once it returns; the producer may commit more on
/// another thread at any moment after.
#[verifier::external_body]
pub(crate) fn ring_is_empty(c: &mut Consumer<u8>) -> (r: bool)
    ensures
        ring_readable(*old(c)).is_prefix_of(ring_readable(*final(c))),
        r <==> ring_readable(*final(c)).len() == 0,
        ring_read_pos(*final(c)) == ring_read_pos(*old(c)),
        ring_read_capacity(*final(c)) == ring_read_capacity(*old(c)),
        ring_abandoned(*final(c)) == ring_abandoned(*old(c)),
        ring_taken(*final(c)) == ring_taken(*old(c)),
        ring_source(*final(c)) == ring_source(*old(c)),
        ring_abandon_seen(*final(c)) == ring_abandon_seen(*old(c)),
        (ring_taken(*final(c)) + ring_readable(*final(c))).is_prefix_of(ring_source(*final(c))),
{
    c.is_empty()
}

/// `rtrb::Consumer::is_abandoned`: whether the producer half has been dropped by
/// now. Once it answered `true` it keeps answering `true`; `false` says only that
/// the producer was alive when it looked.
#[verifier::external_body]
pub(crate) fn ring_is_abandoned(c: &mut Consumer<u8>) -> (r: bool)
    ensures
        r == ring_abandon_seen(*final(c)),
        ring_abandon_seen(*old(c)) ==> r,
        r ==> ring_abandoned(*final(c)),
        ring_readable(*final(c)) == ring_readable(*old(c)),
        ring_read_pos(*final(c)) == ring_read_pos(*old(c)),
        ring_read_capacity(*final(c)) == ring_read_capacity(*old(c)),
        ring_abandoned(*final(c)) == ring_abandoned(*old(c)),
        ring_taken(*final(c)) == ring_taken(*old(c)),
        ring_source(*final(c)) == ring_source(*old(c)),
        (ring_taken(*final(c)) + ring_readable(*final(c))).is_prefix_of(ring_source(*final(c))),
{
    c.is_abandoned()
}

} // verus!
