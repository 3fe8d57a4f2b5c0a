use vstd::prelude::*;

use rtrb::{Consumer, Producer};

use crate::arg::bytes::{
    le_bytes, le_value, lemma_le_bound, lemma_le_bytes_len, lemma_le_roundtrip, lemma_pow256_values,
    read_unsigned_ne, write_le,
};
use crate::config::MAX_BLOCK_CAPACITY;
use crate::ring::{
    ring_abandon_seen, ring_abandoned, ring_capacity, ring_consume, ring_free, ring_free_slots,
    ring_is_abandoned, ring_is_empty, ring_new, ring_peek, ring_producer_dropped, ring_push_slice,
    ring_read_capacity, ring_read_pos, ring_readable, ring_sent, ring_slots,
    ring_source, ring_stream, ring_taken,
};

pub use crate::config::DEFAULT_START_CAPACITY as DEFAULT_QUEUE_CAPACITY;

verus! {

/// Bytes in front of every message in the ring: its length as a 4-byte
/// little-endian number, then four zero bytes.
pub const HEADER_SIZE: usize = 8;

/// Every frame is padded with zeros to a multiple of this many bytes.
pub const CACHE_LINE: usize = 64;

/// `n` rounded up to a multiple of `align`.
pub open spec fn spec_align_up(n: nat, align: nat) -> nat
    recommends
        align > 0,
{
    ((n + align - 1) / (align as int) * align) as nat
}

fn align_up(n: usize, align: usize) -> (r: usize)
    requires
        align > 0,
        n + align - 1 <= usize::MAX,
    ensures
        r == spec_align_up(n as nat, align as nat),
        n <= r,
{
    let x = n + (align - 1);
    assert((x / align) * align <= x && n <= (x / align) * align) by (nonlinear_arith)
        requires
            align > 0,
            x == n + align - 1,
    ;
    x / align * align
}

/// `n` zero bytes.
pub open spec fn zeros(n: nat) -> Seq<u8> {
    Seq::new(n, |i: int| 0u8)
}

/// The size of the frame that carries a message of `len` bytes.
pub open spec fn frame_padded(len: nat) -> nat {
    spec_align_up((HEADER_SIZE + len) as nat, CACHE_LINE as nat)
}

/// The bytes that a push commits for the message `data`: the header (the length
/// modulo 2^32, little-endian, and four zero bytes), the message, and zero padding
/// up to `frame_padded`.
pub open spec fn frame(data: Seq<u8>) -> Seq<u8> {
    le_bytes(data.len() % 0x1_0000_0000, 4) + zeros(4) + data + zeros(
        (frame_padded(data.len()) - HEADER_SIZE - data.len()) as nat,
    )
}

/// `s` cut or padded with zeros to `n` bytes.
pub open spec fn fit(s: Seq<u8>, n: nat) -> Seq<u8> {
    if s.len() >= n {
        s.take(n as int)
    } else {
        s + zeros((n - s.len()) as nat)
    }
}

/// `encode`, handed `b` holding `n` zero bytes, may return `v`.
pub open spec fn handed<R, F: FnMut(&mut [u8]) -> R>(encode: F, b: &mut [u8], n: nat, v: R) -> bool {
    (*b)@ == zeros(n) && call_ensures(encode, (b,), v)
}

/// What a pop finds at the front of the readable bytes, given as the two slices in
/// which the ring holds them: the message and the frame size, or `None` when the
/// header is split across the two slices or the frame is not complete yet.
pub open spec fn pop_frame(first: Seq<u8>, second: Seq<u8>) -> Option<(Seq<u8>, nat)> {
    let all = first + second;
    if all.len() < HEADER_SIZE || first.len() < HEADER_SIZE {
        None
    } else {
        let len = le_value(first.take(4));
        let padded = frame_padded(len);
        if all.len() < padded {
            None
        } else {
            Some((all.subrange(HEADER_SIZE as int, HEADER_SIZE + len), padded))
        }
    }
}

/// A pop that went from the readable bytes `before` to `after` and returned `msg`:
/// it read a snapshot that extends `before`, found `msg` in a frame at its front,
/// and dropped that frame; the producer may have added bytes meanwhile.
pub open spec fn pop_step(before: Seq<u8>, after: Seq<u8>, msg: Seq<u8>) -> bool {
    exists|first: Seq<u8>, second: Seq<u8>, k: nat|
        #![trigger pop_frame(first, second), (first + second).skip(k as int)]
        {
            &&& before.is_prefix_of(first + second)
            &&& pop_frame(first, second) == Some((msg, k))
            &&& (first + second).skip(k as int).is_prefix_of(after)
        }
}

/// A pop that returned nothing: the snapshot it read extends `before`, holds no
/// complete frame at its front, and nothing was dropped.
pub open spec fn pop_none(before: Seq<u8>, after: Seq<u8>) -> bool {
    exists|first: Seq<u8>, second: Seq<u8>|
        #![trigger pop_frame(first, second)]
        {
            &&& before.is_prefix_of(first + second)
            &&& pop_frame(first, second) is None
            &&& (first + second).is_prefix_of(after)
        }
}

/// Successive pops from `before` that returned `msgs` in order, the last of them
/// finding no complete frame, ending at `after`.
pub open spec fn pop_run(before: Seq<u8>, after: Seq<u8>, msgs: Seq<Seq<u8>>) -> bool {
    exists|states: Seq<Seq<u8>>|
        #![trigger states.len(), states[0]]
        {
            &&& states.len() == msgs.len() + 1
            &&& states[0] == before
            &&& forall|i: int|
                0 <= i < msgs.len() ==> #[trigger] pop_step(states[i], states[i + 1], msgs[i])
            &&& pop_none(states[msgs.len() as int], after)
        }
}

#[derive(Debug, Clone, Copy, PartialEq, Eq, Structural)]
pub enum PushError {
    Full,
}

/// The writing half of a queue block: a byte ring buffer and its capacity.
pub struct SpscProducer {
    inner: Producer<u8>,
    capacity: usize,
}

/// The reading half of a queue block.
pub struct SpscConsumer {
    inner: Consumer<u8>,
}

impl SpscProducer {
    #[verifier::type_invariant]
    spec fn inv(self) -> bool {
        &&& ring_capacity(self.inner) == self.capacity
        &&& self.capacity <= usize::MAX / 2
        &&& ring_free(self.inner) <= self.capacity
        &&& ring_sent(self.inner).is_prefix_of(ring_stream(self.inner))
    }

    /// The capacity of the block, in bytes.
    pub closed spec fn spec_capacity(self) -> nat {
        self.capacity as nat
    }

    /// Every byte committed to the block since it was created.
    pub closed spec fn sent(self) -> Seq<u8> {
        ring_sent(self.inner)
    }

    /// The free bytes of the block, as last observed.
    pub closed spec fn free(self) -> nat {
        ring_free(self.inner)
    }

    /// Every byte ever committed to the block, over its whole life: `sent` is a
    /// prefix of it, and it is what the block's consumer reads from.
    pub closed spec fn stream(self) -> Seq<u8> {
        ring_stream(self.inner)
    }

    /// Whether this producer is dropped at some point; its consumer then finds the
    /// block abandoned.
    pub closed spec fn dropped(self) -> bool {
        ring_producer_dropped(self.inner)
    }
}

impl SpscConsumer {
    /// The bytes that can be read from the block now.
    pub closed spec fn readable(self) -> Seq<u8> {
        ring_readable(self.inner)
    }

    /// The byte position in the block at which the next read starts.
    pub closed spec fn read_pos(self) -> nat {
        ring_read_pos(self.inner)
    }

    /// The capacity of the block, in bytes.
    pub closed spec fn block_capacity(self) -> nat {
        ring_read_capacity(self.inner)
    }

    /// Whether the block's producer is dropped at some point.
    pub closed spec fn abandoned(self) -> bool {
        ring_abandoned(self.inner)
    }

    /// Every byte ever committed to the block by its producer (its `stream`).
    pub closed spec fn source(self) -> Seq<u8> {
        ring_source(self.inner)
    }

    /// Every byte consumed from the block so far. These bytes followed by the
    /// readable ones are a prefix of `source`.
    pub closed spec fn taken(self) -> Seq<u8> {
        ring_taken(self.inner)
    }

    /// Whether `is_abandoned` has found the block's producer dropped.
    pub closed spec fn abandon_seen(self) -> bool {
        ring_abandon_seen(self.inner)
    }

    /// The consumed bytes followed by the readable ones are a prefix of what the
    /// producer commits.
    pub open spec fn in_order(self) -> bool {
        (self.taken() + self.readable()).is_prefix_of(self.source())
    }
}

/// A run of pops stays such a run when more bytes become known readable after it.
pub proof fn lemma_pop_run_grows(before: Seq<u8>, after: Seq<u8>, later: Seq<u8>, msgs: Seq<Seq<u8>>)
    requires
        pop_run(before, after, msgs),
        after.is_prefix_of(later),
    ensures
        pop_run(before, later, msgs),
{
    let states = choose|states: Seq<Seq<u8>>|
        #![trigger states.len(), states[0]]
        {
            &&& states.len() == msgs.len() + 1
            &&& states[0] == before
            &&& forall|i: int|
                0 <= i < msgs.len() ==> #[trigger] pop_step(states[i], states[i + 1], msgs[i])
            &&& pop_none(states[msgs.len() as int], after)
        };
    let last = states[msgs.len() as int];
    let (first, second) = choose|first: Seq<u8>, second: Seq<u8>|
        #![trigger pop_frame(first, second)]
        {
            &&& last.is_prefix_of(first + second)
            &&& pop_frame(first, second) is None
            &&& (first + second).is_prefix_of(after)
        };
    assert((first + second).is_prefix_of(later)) by {
        assert forall|j: int| 0 <= j < (first + second).len() implies (first + second)[j] == later[j] by {
            assert(after[j] == later[j]);
        }
    }
    assert(pop_none(last, later));
}

/// `after` is the block `before` knowing of more readable bytes, as a look at what
/// the producer has committed leaves it; nothing else about it changed.
pub open spec fn refreshed(before: SpscConsumer, after: SpscConsumer) -> bool {
    &&& before.readable().is_prefix_of(after.readable())
    &&& after.read_pos() == before.read_pos()
    &&& after.block_capacity() == before.block_capacity()
    &&& after.abandoned() == before.abandoned()
    &&& after.source() == before.source()
    &&& after.taken() == before.taken()
    &&& after.abandon_seen() == before.abandon_seen()
}

/// The frames of `msgs`, one after the other.
pub open spec fn frames(msgs: Seq<Seq<u8>>) -> Seq<u8>
    decreases msgs.len(),
{
    if msgs.len() == 0 {
        Seq::empty()
    } else {
        frames(msgs.drop_last()) + frame(msgs.last())
    }
}

/// A pop that moved the consumed bytes of a block from `before` to `after`, within
/// the bytes `source` that its producer commits, and returned `msg`: what it
/// consumed is one whole frame, whose message is `msg`.
pub open spec fn took_frame(before: Seq<u8>, after: Seq<u8>, source: Seq<u8>, msg: Seq<u8>) -> bool {
    let chunk = after.skip(before.len() as int);
    &&& before.is_prefix_of(after)
    &&& after.is_prefix_of(source)
    &&& front_complete(chunk)
    &&& chunk.len() == frame_padded(front_len(chunk))
    &&& front_message(chunk) == msg
}

/// Successive pops that moved the consumed bytes from `before` to `after`, within
/// `source`, and returned `msgs` in order.
pub open spec fn took_frames(before: Seq<u8>, after: Seq<u8>, source: Seq<u8>, msgs: Seq<Seq<u8>>) -> bool
    decreases msgs.len(),
{
    if msgs.len() == 0 {
        before == after && before.is_prefix_of(source)
    } else {
        exists|mid: Seq<u8>|
            #![trigger took_frame(mid, after, source, msgs.last())]
            took_frames(before, mid, source, msgs.drop_last()) && took_frame(mid, after, source, msgs.last())
    }
}

/// The length that the header at the front of `b` gives.
pub open spec fn front_len(b: Seq<u8>) -> nat {
    le_value(b.take(4))
}

/// Whether `b` begins with a whole frame.
pub open spec fn front_complete(b: Seq<u8>) -> bool {
    b.len() >= HEADER_SIZE && b.len() >= frame_padded(front_len(b))
}

/// The message of the frame at the front of `b`.
pub open spec fn front_message(b: Seq<u8>) -> Seq<u8> {
    b.subrange(HEADER_SIZE as int, HEADER_SIZE + front_len(b))
}

/// Whether a frame's header that starts at position `pos` of a block of `cap`
/// bytes lies whole before the block's end.
pub open spec fn header_before_wrap(pos: nat, cap: nat) -> bool {
    pos + HEADER_SIZE <= cap
}

/// Where the read position of a block of `cap` bytes moves when `k` bytes are read
/// from `pos`.
pub open spec fn advance(pos: nat, k: nat, cap: nat) -> nat {
    if cap > 0 {
        (pos + k) % cap
    } else {
        pos
    }
}

/// The messages that pop in turn from the readable bytes `b` of a block of `cap`
/// bytes read from `pos`: each frame that is whole at the front and whose header
/// lies before the block's end.
pub open spec fn ready_msgs(b: Seq<u8>, pos: nat, cap: nat) -> Seq<Seq<u8>>
    decreases b.len(),
{
    if front_complete(b) && header_before_wrap(pos, cap) {
        let k = frame_padded(front_len(b));
        if k > 0 && k <= b.len() {
            seq![front_message(b)] + ready_msgs(b.skip(k as int), advance(pos, k, cap), cap)
        } else {
            Seq::empty()
        }
    } else {
        Seq::empty()
    }
}

/// Creates a queue block of `capacity` bytes and returns its two halves.
pub fn create_queue(capacity: usize) -> (r: (SpscProducer, SpscConsumer))
    requires
        capacity <= usize::MAX / 2,
    ensures
        r.0.spec_capacity() == capacity,
        r.0.sent() == Seq::<u8>::empty(),
        r.0.free() == capacity,
        r.1.readable() == Seq::<u8>::empty(),
        r.1.read_pos() == 0,
        r.1.block_capacity() == capacity,
        r.1.source() == r.0.stream(),
        r.1.taken() == Seq::<u8>::empty(),
        r.1.abandoned() == r.0.dropped(),
        !r.1.abandon_seen(),
        r.1.in_order(),
        r.0.sent().is_prefix_of(r.0.stream()),
{
    let (prod, cons) = ring_new(capacity);
    (SpscProducer { inner: prod, capacity }, SpscConsumer { inner: cons })
}

/// The capacity that `grow` moves a block of capacity `cap` to.
pub open spec fn grown_capacity(cap: nat) -> nat {
    if 2 * cap <= MAX_BLOCK_CAPACITY {
        2 * cap
    } else {
        MAX_BLOCK_CAPACITY as nat
    }
}

/// The frame that `push` commits for `data`.
fn frame_bytes(data: &[u8]) -> (r: Vec<u8>)
    requires
        data@.len() + HEADER_SIZE + CACHE_LINE - 1 <= usize::MAX,
    ensures
        r@ == frame(data@),
        r@.len() == frame_padded(data@.len()),
{
    let len = data.len();
    let padded = align_up(HEADER_SIZE + len, CACHE_LINE);
    let mut buf: Vec<u8> = vec![0u8; padded];
    let header: u64 = (len as u64) % 0x1_0000_0000;
    write_le(buf.as_mut_slice(), 0, header as u128, 4);
    proof {
        lemma_le_bytes_len(header as nat, 4);
    }
    let ghost hdr = buf@.subrange(0, 4);
    assert(hdr == le_bytes(header as nat, 4));
    let mut i: usize = 0;
    while i < len
        invariant
            i <= len == data@.len(),
            padded == frame_padded(len as nat),
            HEADER_SIZE + len <= padded,
            buf@.len() == padded,
            buf@.subrange(0, 4) == hdr,
            forall|j: int|
                4 <= j < padded ==> #[trigger] buf@[j] == (if 8 <= j < 8 + i {
                    data@[j - 8]
                } else {
                    0u8
                }),
        decreases len - i,
    {
        buf.set(HEADER_SIZE + i, data[i]);
        assert(buf@.subrange(0, 4) =~= hdr);
        i = i + 1;
    }
    assert(header as nat == len as nat % 0x1_0000_0000);
    assert(buf@ =~= frame(data@)) by {
        let f = frame(data@);
        assert(f.len() == padded);
        assert forall|j: int| 0 <= j < padded implies buf@[j] == f[j] by {
            if j < 4 {
                assert(buf@[j] == buf@.subrange(0, 4)[j]);
            }
        }
    }
    buf
}

/// A frame is as long as `frame_padded` says, which leaves room for the header
/// and the message.
pub proof fn lemma_frame_len(data: Seq<u8>)
    ensures
        frame(data).len() == frame_padded(data.len()),
        HEADER_SIZE + data.len() <= frame_padded(data.len()),
{
    let n = HEADER_SIZE + data.len();
    assert(n <= (n + 63) / 64 * 64) by (nonlinear_arith)
        requires
            n >= 0,
    ;
    lemma_le_bytes_len(data.len() % 0x1_0000_0000, 4);
}

/// A frame's size is a positive multiple of 64 that leaves room for the header and
/// the message.
pub proof fn lemma_padded_bounds(len: nat)
    ensures
        HEADER_SIZE + len <= frame_padded(len),
        frame_padded(len) % 64 == 0,
        frame_padded(len) > 0,
{
    let n = HEADER_SIZE + len;
    assert(n <= (n + 63) / 64 * 64 && ((n + 63) / 64 * 64) % 64 == 0 && (n + 63) / 64 * 64 > 0) by (nonlinear_arith)
        requires
            n >= 8,
    ;
}

/// More readable bytes pop at least the same messages.
pub proof fn lemma_ready_msgs_mono(x: Seq<u8>, y: Seq<u8>, pos: nat, cap: nat)
    requires
        x.is_prefix_of(y),
    ensures
        ready_msgs(x, pos, cap).is_prefix_of(ready_msgs(y, pos, cap)),
    decreases x.len(),
{
    if front_complete(x) && header_before_wrap(pos, cap) {
        let k = frame_padded(front_len(x));
        assert(x.take(4) =~= y.take(4));
        lemma_padded_bounds(front_len(x));
        if k <= x.len() {
            assert(front_message(x) =~= front_message(y));
            assert(x.skip(k as int).is_prefix_of(y.skip(k as int))) by {
                assert forall|j: int| 0 <= j < x.skip(k as int).len() implies x.skip(k as int)[j] == y.skip(k as int)[j] by {
                    assert(x[j + k] == y[j + k]);
                }
            }
            lemma_ready_msgs_mono(x.skip(k as int), y.skip(k as int), advance(pos, k, cap), cap);
            let a = ready_msgs(x, pos, cap);
            let b = ready_msgs(y, pos, cap);
            assert forall|q: int| 0 <= q < a.len() implies a[q] == b[q] by {
                if q > 0 {
                    assert(a[q] == ready_msgs(x.skip(k as int), advance(pos, k, cap), cap)[q - 1]);
                    assert(b[q] == ready_msgs(y.skip(k as int), advance(pos, k, cap), cap)[q - 1]);
                }
            }
        }
    }
}

/// In a block whose capacity is a multiple of 64, a read position that is a
/// multiple of 64 below the capacity leaves every header before the block's end,
/// and reading a frame keeps the position so: every whole frame at the front pops.
pub proof fn lemma_aligned_positions(pos: nat, cap: nat, len: nat)
    requires
        cap % 64 == 0,
        pos % 64 == 0,
        pos < cap,
    ensures
        header_before_wrap(pos, cap),
        advance(pos, frame_padded(len), cap) % 64 == 0,
        advance(pos, frame_padded(len), cap) < cap,
{
    lemma_padded_bounds(len);
    let k = frame_padded(len);
    assert(pos + 64 <= cap) by (nonlinear_arith)
        requires
            cap % 64 == 0,
            pos % 64 == 0,
            pos < cap,
    ;
    let a = (pos + k) as int;
    let c = cap as int;
    let q = a / c;
    let r = a % c;
    vstd::arithmetic::div_mod::lemma_fundamental_div_mod(a, c);
    vstd::arithmetic::div_mod::lemma_mod_bound(a, c);
    vstd::arithmetic::div_mod::lemma_fundamental_div_mod(a, 64);
    vstd::arithmetic::div_mod::lemma_fundamental_div_mod(c, 64);
    let a1 = a / 64;
    let c1 = c / 64;
    assert(a == 64 * a1);
    assert(c == 64 * c1);
    vstd::arithmetic::mul::lemma_mul_is_associative(64, c1, q);
    assert(r == 64 * a1 - 64 * (c1 * q));
    vstd::arithmetic::mul::lemma_mul_is_distributive_sub(64, a1, c1 * q);
    assert(r == 64 * (a1 - c1 * q));
    vstd::arithmetic::div_mod::lemma_mod_multiples_basic(a1 - c1 * q, 64);
    vstd::arithmetic::mul::lemma_mul_is_commutative(64, a1 - c1 * q);
    assert(r % 64 == 0);
}

/// Framing then popping gives the message back: the frame of `data`, followed by
/// any bytes, pops as `data` and the frame's size, wherever the ring splits the
/// readable bytes after the header. Messages of 2^32 bytes or more do not come
/// back, as their header holds the length modulo 2^32.
pub proof fn lemma_frame_roundtrip(data: Seq<u8>, rest: Seq<u8>, split: nat)
    requires
        data.len() < 0x1_0000_0000,
        HEADER_SIZE <= split <= frame(data).len() + rest.len(),
    ensures
        pop_frame((frame(data) + rest).take(split as int), (frame(data) + rest).skip(split as int))
            == Some((data, frame(data).len())),
{
    lemma_frame_len(data);
    let f = frame(data);
    let all = f + rest;
    let first = all.take(split as int);
    let second = all.skip(split as int);
    assert(first + second =~= all);
    lemma_le_bytes_len(data.len() % 0x1_0000_0000, 4);
    assert(first.take(4) =~= le_bytes(data.len() % 0x1_0000_0000, 4));
    lemma_le_roundtrip(data.len() % 0x1_0000_0000, 4);
    lemma_pow256_values();
    assert(le_value(first.take(4)) == data.len());
    assert(all.subrange(HEADER_SIZE as int, HEADER_SIZE + data.len()) =~= data);
}

/// The bytes known readable that begin with the frame of `data` begin with a whole
/// frame whose message is `data`, the frame taking `frame(data).len()` bytes.
pub proof fn lemma_frame_front(data: Seq<u8>, rest: Seq<u8>)
    requires
        data.len() < 0x1_0000_0000,
    ensures
        front_complete(frame(data) + rest),
        front_len(frame(data) + rest) == data.len(),
        front_message(frame(data) + rest) == data,
        frame_padded(front_len(frame(data) + rest)) == frame(data).len(),
        (frame(data) + rest).skip(frame(data).len() as int) == rest,
{
    lemma_frame_len(data);
    let all = frame(data) + rest;
    lemma_le_bytes_len(data.len() % 0x1_0000_0000, 4);
    assert(all.take(4) =~= le_bytes(data.len() % 0x1_0000_0000, 4));
    lemma_le_roundtrip(data.len() % 0x1_0000_0000, 4);
    lemma_pow256_values();
    assert(all.subrange(HEADER_SIZE as int, HEADER_SIZE + data.len()) =~= data);
    assert(all.skip(frame(data).len() as int) =~= rest);
}

/// The bytes that a pop consumes after finding `msg` in a frame of `k` bytes at the
/// front of the readable bytes `mid` form that whole frame.
proof fn lemma_popped_chunk(
    first: Seq<u8>,
    second: Seq<u8>,
    msg: Seq<u8>,
    k: nat,
    taken: Seq<u8>,
    mid: Seq<u8>,
    source: Seq<u8>,
)
    requires
        pop_frame(first, second) == Some((msg, k)),
        (first + second).is_prefix_of(mid),
        (taken + mid).is_prefix_of(source),
    ensures
        k <= mid.len(),
        took_frame(taken, taken + mid.take(k as int), source, msg),
{
    let t = first + second;
    let len = le_value(first.take(4));
    lemma_padded_bounds(len);
    let chunk = mid.take(k as int);
    let after = taken + chunk;
    assert(chunk =~= t.take(k as int));
    assert(after.skip(taken.len() as int) =~= chunk);
    assert(chunk.take(4) =~= first.take(4));
    assert(front_message(chunk) =~= msg);
    assert(taken.is_prefix_of(after));
    assert(after.is_prefix_of(source)) by {
        assert forall|j: int| 0 <= j < after.len() implies after[j] == source[j] by {
            assert(after[j] == (taken + mid)[j]);
        }
    }
}

/// Reads the message at the front of the readable bytes, held in the two slices
/// `first` and `second`: the message and the size of its frame.
pub fn parse_frame(first: &[u8], second: &[u8]) -> (r: Option<(Vec<u8>, usize)>)
    requires
        first@.len() + second@.len() <= usize::MAX,
    ensures
        match pop_frame(first@, second@) {
            None => r is None,
            Some((m, k)) => r matches Some((v, n)) && v@ == m && n == k,
        },
{
    let flen = first.len();
    let slen = second.len();
    if flen + slen < HEADER_SIZE || flen < HEADER_SIZE {
        return None;
    }
    let len_wide = read_unsigned_ne(first, 3);
    proof {
        lemma_pow256_values();
        lemma_le_bound(first@.subrange(0, 4));
        assert(first@.take(4) =~= first@.subrange(0, 4));
    }
    let len = len_wide as u64;
    let padded64: u64 = (HEADER_SIZE as u64 + len + 63) / 64 * 64;
    assert(padded64 == frame_padded(len as nat));
    if ((flen + slen) as u64) < padded64 {
        return None;
    }
    let end = HEADER_SIZE + len as usize;
    let first_end = if end < flen {
        end
    } else {
        flen
    };
    let mut msg: Vec<u8> = Vec::new();
    let ghost all = first@ + second@;
    let mut i: usize = HEADER_SIZE;
    while i < first_end
        invariant
            HEADER_SIZE <= i <= first_end <= flen == first@.len(),
            first_end <= end,
            all == first@ + second@,
            msg@ == all.subrange(HEADER_SIZE as int, i as int),
        decreases first_end - i,
    {
        msg.push(first[i]);
        i = i + 1;
        assert(msg@ =~= all.subrange(HEADER_SIZE as int, i as int));
    }
    let remaining = end - first_end;
    let mut j: usize = 0;
    while j < remaining
        invariant
            j <= remaining == end - first_end,
            first_end == flen || remaining == 0,
            HEADER_SIZE <= first_end <= flen,
            end <= flen + slen,
            flen == first@.len(),
            slen == second@.len(),
            all == first@ + second@,
            msg@ == all.subrange(HEADER_SIZE as int, first_end + j),
        decreases remaining - j,
    {
        msg.push(second[j]);
        j = j + 1;
        assert(msg@ =~= all.subrange(HEADER_SIZE as int, first_end + j));
    }
    Some((msg, padded64 as usize))
}

/// Puts `fresh` in place of the block `p`, dropping the old block's
/// `rtrb::Producer`: its consumer then finds the block abandoned. Nothing is
/// committed to the old block after that, so everything it ever commits is what it
/// had committed by then.
#[verifier::external_body]
fn replace_block(p: &mut SpscProducer, fresh: SpscProducer)
    ensures
        old(p).dropped(),
        old(p).stream() == old(p).sent(),
        *final(p) == fresh,
{
    *p = fresh;
}

impl SpscProducer {
    pub fn capacity(&self) -> (r: usize)
        ensures
            r == self.spec_capacity(),
            r <= usize::MAX / 2,
            self.free() <= r,
    {
        proof {
            use_type_invariant(self);
        }
        self.capacity
    }

    /// Replaces the block by a new, empty one of `grown_capacity` bytes and returns
    /// the new block's consumer; the old consumer sees its producer abandoned.
    /// Returns `None`, and changes nothing, when the capacity cannot grow (it is
    /// at `MAX_BLOCK_CAPACITY`, or the new capacity would not fit the platform).
    pub fn grow(&mut self) -> (r: Option<SpscConsumer>)
        ensures
            r is None <==> (grown_capacity(old(self).spec_capacity()) <= old(self).spec_capacity()
                || grown_capacity(old(self).spec_capacity()) > usize::MAX / 2),
            r is None ==> *final(self) == *old(self),
            r matches Some(c) ==> {
                &&& final(self).spec_capacity() == grown_capacity(old(self).spec_capacity())
                &&& final(self).sent() == Seq::<u8>::empty()
                &&& final(self).free() == final(self).spec_capacity()
                &&& c.readable() == Seq::<u8>::empty()
                &&& c.read_pos() == 0
                &&& c.block_capacity() == final(self).spec_capacity()
                &&& c.source() == final(self).stream()
                &&& c.taken() == Seq::<u8>::empty()
                &&& c.abandoned() == final(self).dropped()
                &&& !c.abandon_seen()
                &&& c.in_order()
                &&& old(self).dropped()
                &&& old(self).stream() == old(self).sent()
            },
            final(self).sent().is_prefix_of(final(self).stream()),
    {
        proof {
            use_type_invariant(&*self);
        }
        let doubled = self.capacity * 2;
        let new_cap = if doubled <= MAX_BLOCK_CAPACITY {
            doubled
        } else {
            MAX_BLOCK_CAPACITY
        };
        if new_cap <= self.capacity || new_cap > usize::MAX / 2 {
            return None;
        }
        let (prod, cons) = ring_new(new_cap);
        replace_block(self, SpscProducer { inner: prod, capacity: new_cap });
        Some(SpscConsumer { inner: cons })
    }

    /// Commits `data` as one frame, or nothing when the block has not enough free
    /// bytes for the frame. A push that succeeds takes no more free bytes than the
    /// frame's size.
    pub fn push(&mut self, data: &[u8]) -> (r: Result<(), PushError>)
        requires
            data@.len() + HEADER_SIZE + CACHE_LINE - 1 <= usize::MAX,
        ensures
            final(self).spec_capacity() == old(self).spec_capacity(),
            r is Ok ==> final(self).sent() == old(self).sent() + frame(data@),
            r is Err ==> r == Err::<(), PushError>(PushError::Full) && final(self).sent()
                == old(self).sent() && frame_padded(data@.len()) > final(self).free(),
            frame_padded(data@.len()) <= old(self).free() ==> r is Ok,
            frame_padded(data@.len()) > old(self).spec_capacity() ==> r is Err,
            r is Ok ==> final(self).free() + frame_padded(data@.len()) >= old(self).free(),
            final(self).stream() == old(self).stream(),
            final(self).dropped() == old(self).dropped(),
            final(self).sent().is_prefix_of(final(self).stream()),
    {
        proof {
            use_type_invariant(&*self);
        }
        let frame = frame_bytes(data);
        if ring_push_slice(&mut self.inner, frame.as_slice()) {
            Ok(())
        } else {
            Err(PushError::Full)
        }
    }

    /// Commits one frame of `total_msg` bytes whose payload is what `encode` left in
    /// the `total_msg` zero bytes it was handed, or nothing (without calling
    /// `encode`) when the block has not enough free bytes.
    pub fn push_encoded<R, F: FnMut(&mut [u8]) -> R>(&mut self, total_msg: usize, encode: &mut F) -> (r:
        Result<R, PushError>)
        requires
            total_msg + HEADER_SIZE + CACHE_LINE - 1 <= usize::MAX,
            forall|b: &mut [u8]| call_requires(*old(encode), (b,)),
        ensures
            final(self).spec_capacity() == old(self).spec_capacity(),
            r is Ok ==> exists|payload: Seq<u8>|
                #![trigger frame(payload)]
                payload.len() == total_msg && final(self).sent() == old(self).sent() + frame(payload)
                    && exists|b: &mut [u8]|
                    #![trigger handed(*old(encode), b, total_msg as nat, r->Ok_0)]
                    handed(*old(encode), b, total_msg as nat, r->Ok_0) && payload == fit(
                        (*final(b))@,
                        total_msg as nat,
                    ),
            r is Err ==> r->Err_0 == PushError::Full && final(self).sent() == old(self).sent()
                && frame_padded(total_msg as nat) > final(self).free() && *final(encode) == *old(
                encode),
            frame_padded(total_msg as nat) <= old(self).free() ==> r is Ok,
            frame_padded(total_msg as nat) > old(self).spec_capacity() ==> r is Err,
            r is Ok ==> final(self).free() + frame_padded(total_msg as nat) >= old(self).free(),
            final(self).stream() == old(self).stream(),
            final(self).dropped() == old(self).dropped(),
            final(self).sent().is_prefix_of(final(self).stream()),
    {
        proof {
            use_type_invariant(&*self);
        }
        let padded = align_up(HEADER_SIZE + total_msg, CACHE_LINE);
        let free = ring_free_slots(&mut self.inner);
        assert(padded == frame_padded(total_msg as nat));
        if free < padded {
            return Err(PushError::Full);
        }
        let mut tmp: Vec<u8> = vec![0u8; total_msg];
        let slice = tmp.as_mut_slice();
        let ghost given = slice;
        let result = encode(slice);
        tmp.resize(total_msg, 0u8);
        proof {
            let n = total_msg as nat;
            assert((*given)@ =~= zeros(n));
            assert(tmp@ =~= fit((*final(given))@, n));
            assert(exists|b: &mut [u8]|
                #![trigger call_ensures(*old(encode), (b,), result)]
                (*b)@ == zeros(n) && call_ensures(*old(encode), (b,), result) && tmp@ == fit((*final(b))@, n));
            let b = choose|b: &mut [u8]|
                #![trigger call_ensures(*old(encode), (b,), result)]
                (*b)@ == zeros(n) && call_ensures(*old(encode), (b,), result) && tmp@ == fit((*final(b))@, n);
            assert(handed(*old(encode), b, n, result) && tmp@ == fit((*final(b))@, n));
        }
        let frame = frame_bytes(tmp.as_slice());
        if ring_push_slice(&mut self.inner, frame.as_slice()) {
            let r: Result<R, PushError> = Ok(result);
            assert(r->Ok_0 == result);
            r
        } else {
            Err(PushError::Full)
        }
    }
}

impl SpscConsumer {
    /// Takes the message at the front of the block, if a complete frame is there.
    /// A frame that was whole in the bytes known readable, with its header before
    /// the block's end, always pops.
    pub fn pop(&mut self) -> (r: Option<Vec<u8>>)
        ensures
            match r {
                Some(m) => pop_step(old(self).readable(), final(self).readable(), m@),
                None => pop_none(old(self).readable(), final(self).readable()),
            },
            final(self).block_capacity() == old(self).block_capacity(),
            final(self).abandoned() == old(self).abandoned(),
            r is None ==> final(self).read_pos() == old(self).read_pos(),
            r matches Some(m) ==> final(self).read_pos() == advance(
                old(self).read_pos(),
                frame_padded(m@.len()),
                old(self).block_capacity(),
            ),
            front_complete(old(self).readable()) && header_before_wrap(
                old(self).read_pos(),
                old(self).block_capacity(),
            ) ==> (r matches Some(m) && m@ == front_message(old(self).readable()) && old(
                self,
            ).readable().skip(frame_padded(front_len(old(self).readable())) as int).is_prefix_of(
                final(self).readable(),
            )),
            final(self).source() == old(self).source(),
            final(self).abandon_seen() == old(self).abandon_seen(),
            final(self).in_order(),
            r is None ==> final(self).taken() == old(self).taken(),
            r matches Some(m) ==> took_frame(old(self).taken(), final(self).taken(), old(self).source(), m@),
    {
        let ghost before = self.readable();
        let ghost pos = self.read_pos();
        let ghost cap = self.block_capacity();
        let ghost ready = front_complete(before) && header_before_wrap(pos, cap);
        proof {
            if ready {
                lemma_padded_bounds(front_len(before));
            }
        }
        let n = ring_slots(&mut self.inner);
        let ghost snap = self.readable();
        if n < HEADER_SIZE {
            assert(pop_frame(snap, Seq::<u8>::empty()) is None);
            assert(snap + Seq::<u8>::empty() =~= snap);
            return None;
        }
        match ring_peek(&mut self.inner, n) {
            None => None,
            Some((first, second)) => {
                let ghost t = first@ + second@;
                assert(t =~= snap);
                proof {
                    if ready {
                        assert(first@.len() >= HEADER_SIZE);
                        assert(first@.take(4) =~= before.take(4)) by {
                            assert forall|j: int| 0 <= j < 4 implies first@.take(4)[j] == before.take(4)[j] by {
                                assert(first@[j] == t[j]);
                                assert(t[j] == before[j]);
                            }
                        }
                        assert(pop_frame(first@, second@) == Some(
                            (t.subrange(HEADER_SIZE as int, HEADER_SIZE + front_len(before)), frame_padded(front_len(before))),
                        ));
                        assert(t.subrange(HEADER_SIZE as int, HEADER_SIZE + front_len(before)) =~= front_message(before));
                    }
                }
                match parse_frame(first.as_slice(), second.as_slice()) {
                    None => {
                        assert(pop_frame(first@, second@) is None);
                        None
                    },
                    Some((msg, k)) => {
                        let ghost mid = self.readable();
                        proof {
                            lemma_le_bound(first@.take(4));
                            lemma_pow256_values();
                            assert(msg@.len() == le_value(first@.take(4)));
                        }
                        let ghost tk0 = self.taken();
                        ring_consume(&mut self.inner, k);
                        proof {
                            lemma_popped_chunk(first@, second@, msg@, k as nat, tk0, mid, self.source());
                            assert(t.skip(k as int).is_prefix_of(mid.skip(k as int)));
                            assert(pop_frame(first@, second@) == Some((msg@, k as nat)));
                            assert(t.skip(k as int).is_prefix_of(self.readable()));
                            if ready {
                                assert(before.skip(k as int).is_prefix_of(t.skip(k as int))) by {
                                    assert forall|j: int| 0 <= j < before.skip(k as int).len() implies
                                        before.skip(k as int)[j] == t.skip(k as int)[j] by {
                                        assert(t[j + k] == before[j + k]);
                                    }
                                }
                            }
                        }
                        Some(msg)
                    },
                }
            },
        }
    }

    /// Takes every message that pops in turn, until a pop finds no complete frame
    /// (or, at the latest, after `usize::MAX` messages, a bound no run reaches).
    pub fn pop_all(&mut self) -> (r: Vec<Vec<u8>>)
        ensures
            pop_run(old(self).readable(), final(self).readable(), r@.map_values(|v: Vec<u8>| v@))
                || r@.len() == usize::MAX,
            ready_msgs(old(self).readable(), old(self).read_pos(), old(self).block_capacity()).is_prefix_of(
                r@.map_values(|v: Vec<u8>| v@),
            ) || r@.len() == usize::MAX,
            final(self).block_capacity() == old(self).block_capacity(),
            final(self).abandoned() == old(self).abandoned(),
            final(self).source() == old(self).source(),
            final(self).abandon_seen() == old(self).abandon_seen(),
            final(self).in_order(),
            took_frames(old(self).taken(), final(self).taken(), old(self).source(), r@.map_values(|v: Vec<u8>| v@))
                || r@.len() == usize::MAX,
    {
        let mut msgs: Vec<Vec<u8>> = Vec::new();
        let ghost src = self.source();
        let ghost t0 = self.taken();
        let ghost mut tk = self.taken();
        let ghost mut states: Seq<Seq<u8>> = seq![self.readable()];
        let ghost start = self.readable();
        let ghost cap = self.block_capacity();
        let ghost target = ready_msgs(start, self.read_pos(), cap);
        let ghost mut pb = self.readable();
        let ghost mut pp = self.read_pos();
        let mut next = self.pop();
        assert(msgs@.map_values(|v: Vec<u8>| v@) + ready_msgs(pb, pp, cap) =~= target);
        assert(msgs@.map_values(|v: Vec<u8>| v@) =~= Seq::<Seq<u8>>::empty());
        assert(t0.is_prefix_of(src)) by {
            assert(t0 =~= (t0 + old(self).readable()).subrange(0, t0.len() as int));
        }
        while next.is_some() && msgs.len() < usize::MAX
            invariant
                states.len() == msgs@.len() + 1,
                states[0] == start,
                forall|i: int|
                    0 <= i < msgs@.len() ==> #[trigger] pop_step(states[i], states[i + 1], msgs@[i]@),
                match next {
                    Some(m) => pop_step(states[msgs@.len() as int], self.readable(), m@),
                    None => pop_none(states[msgs@.len() as int], self.readable()),
                },
                self.block_capacity() == cap,
                self.abandoned() == old(self).abandoned(),
                self.source() == src,
                src == old(self).source(),
                t0 == old(self).taken(),
                self.abandon_seen() == old(self).abandon_seen(),
                self.in_order(),
                took_frames(t0, tk, src, msgs@.map_values(|v: Vec<u8>| v@)),
                match next {
                    Some(m) => took_frame(tk, self.taken(), src, m@),
                    None => self.taken() == tk,
                },
                target == ready_msgs(start, old(self).read_pos(), cap),
                target.is_prefix_of(msgs@.map_values(|v: Vec<u8>| v@) + ready_msgs(pb, pp, cap)),
                front_complete(pb) && header_before_wrap(pp, cap) ==> (next matches Some(m) && m@
                    == front_message(pb) && pb.skip(frame_padded(front_len(pb)) as int).is_prefix_of(
                    self.readable(),
                ) && self.read_pos() == advance(pp, frame_padded(m@.len()), cap)),
            decreases usize::MAX - msgs@.len(),
        {
            let ghost prev = states;
            let ghost mv0 = msgs@.map_values(|v: Vec<u8>| v@);
            let m = next.unwrap();
            proof {
                let cur = self.readable();
                let cpos = self.read_pos();
                if front_complete(pb) && header_before_wrap(pp, cap) {
                    let k = frame_padded(front_len(pb));
                    lemma_padded_bounds(front_len(pb));
                    lemma_le_bound(pb.take(4));
                    lemma_pow256_values();
                    assert(pb.take(4).len() == 4);
                    assert(m@.len() == front_len(pb));
                    lemma_ready_msgs_mono(pb.skip(k as int), cur, advance(pp, k, cap), cap);
                    assert(ready_msgs(pb, pp, cap) == seq![front_message(pb)] + ready_msgs(
                        pb.skip(k as int),
                        advance(pp, k, cap),
                        cap,
                    ));
                    assert(mv0.push(m@) + ready_msgs(cur, cpos, cap) =~= mv0 + (seq![m@] + ready_msgs(cur, cpos, cap)));
                    assert(mv0 + ready_msgs(pb, pp, cap) =~= mv0 + (seq![m@] + ready_msgs(pb.skip(k as int), advance(pp, k, cap), cap)));
                    assert((mv0 + ready_msgs(pb, pp, cap)).is_prefix_of(mv0.push(m@) + ready_msgs(cur, cpos, cap))) by {
                        let a = mv0 + (seq![m@] + ready_msgs(pb.skip(k as int), advance(pp, k, cap), cap));
                        let b = mv0 + (seq![m@] + ready_msgs(cur, cpos, cap));
                        assert forall|q: int| 0 <= q < a.len() implies a[q] == b[q] by {
                            if q > mv0.len() {
                                assert(a[q] == ready_msgs(pb.skip(k as int), advance(pp, k, cap), cap)[q - mv0.len() - 1]);
                                assert(b[q] == ready_msgs(cur, cpos, cap)[q - mv0.len() - 1]);
                            }
                        }
                    }
                } else {
                    assert(ready_msgs(pb, pp, cap) =~= Seq::<Seq<u8>>::empty());
                    assert(mv0 + ready_msgs(pb, pp, cap) =~= mv0);
                    assert(mv0.is_prefix_of(mv0.push(m@) + ready_msgs(cur, cpos, cap)));
                }
                pb = cur;
                pp = cpos;
            }
            msgs.push(m);
            proof {
                states = states.push(self.readable());
                assert(msgs@.map_values(|v: Vec<u8>| v@) =~= mv0.push(m@));
                let cur = self.taken();
                assert(mv0.push(m@).drop_last() =~= mv0);
                assert(took_frame(tk, cur, src, mv0.push(m@).last()));
                assert(took_frames(t0, cur, src, mv0.push(m@)));
                tk = cur;
            }
            next = self.pop();
            assert forall|i: int| 0 <= i < msgs@.len() implies #[trigger] pop_step(
                states[i],
                states[i + 1],
                msgs@[i]@,
            ) by {
                if i < msgs@.len() - 1 {
                    assert(states[i] == prev[i] && states[i + 1] == prev[i + 1]);
                }
            }
        }
        proof {
            let mv = msgs@.map_values(|v: Vec<u8>| v@);
            if next is None {
                assert forall|i: int| 0 <= i < mv.len() implies #[trigger] pop_step(
                    states[i],
                    states[i + 1],
                    mv[i],
                ) by {
                    assert(mv[i] == msgs@[i]@);
                }
                assert(states.len() == mv.len() + 1 && states[0] == start);
                assert(ready_msgs(pb, pp, cap) =~= Seq::<Seq<u8>>::empty());
                assert(mv + ready_msgs(pb, pp, cap) =~= mv);
            }
        }
        msgs
    }

    /// Whether the block has no readable byte: when none was known readable, it
    /// looks again at what the producer has committed. The producer may add bytes
    /// at any moment after.
    pub fn is_empty(&mut self) -> (r: bool)
        ensures
            refreshed(*old(self), *final(self)),
            r <==> final(self).readable().len() == 0,
            final(self).in_order(),
    {
        ring_is_empty(&mut self.inner)
    }

    /// Whether the block's producer has been dropped by now; once `true`, always
    /// `true`. `false` says only that the producer was there when it looked.
    pub fn is_abandoned(&mut self) -> (r: bool)
        ensures
            r == final(self).abandon_seen(),
            old(self).abandon_seen() ==> r,
            r ==> final(self).abandoned(),
            final(self).readable() == old(self).readable(),
            final(self).read_pos() == old(self).read_pos(),
            final(self).block_capacity() == old(self).block_capacity(),
            final(self).abandoned() == old(self).abandoned(),
            final(self).source() == old(self).source(),
            final(self).taken() == old(self).taken(),
            final(self).in_order(),
    {
        ring_is_abandoned(&mut self.inner)
    }
}

} // verus!
