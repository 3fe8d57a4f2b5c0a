use vstd::prelude::*;

use crate::config::{QueueMode, MAX_BLOCK_CAPACITY};
use crate::queue::{
    create_queue, fit, frame, frame_padded, handed, grown_capacity, pop_run, ready_msgs, refreshed, took_frames, lemma_pop_run_grows, PushError, SpscConsumer,
    SpscProducer, CACHE_LINE, DEFAULT_QUEUE_CAPACITY, HEADER_SIZE,
};

verus! {

/// A thread's end of the logging queue: the block it currently writes into and
/// what it does when that block is full.
///
/// The consumers of the blocks it creates go to a registry that the caller
/// passes in and the backend drains.
pub struct ThreadContext {
    producer: SpscProducer,
    mode: QueueMode,
}

/// A drain of the block `before` that returned `msgs` and left it as `after`:
/// every pop of it, which returned at least every frame that was ready to pop in
/// the bytes known readable before, each message a whole frame of the bytes its
/// producer commits, consumed in order; the block stays the same block.
pub open spec fn drained(before: SpscConsumer, after: SpscConsumer, msgs: Seq<Seq<u8>>) -> bool {
    &&& after.block_capacity() == before.block_capacity()
    &&& after.abandoned() == before.abandoned()
    &&& after.source() == before.source()
    &&& took_frames(before.taken(), after.taken(), before.source(), msgs) || msgs.len() == usize::MAX
    &&& (pop_run(before.readable(), after.readable(), msgs) && ready_msgs(
        before.readable(),
        before.read_pos(),
        before.block_capacity(),
    ).is_prefix_of(msgs)) || msgs.len() == usize::MAX
}

/// Indices that increase, each below `n`.
pub open spec fn increasing_below(kept: Seq<int>, n: int) -> bool {
    &&& forall|j: int, l: int| 0 <= j < l < kept.len() ==> kept[j] < kept[l]
    &&& forall|j: int| 0 <= j < kept.len() ==> 0 <= #[trigger] kept[j] < n
}

/// The messages of the runs, run after run.
pub open spec fn flatten(runs: Seq<Seq<Seq<u8>>>) -> Seq<Seq<u8>>
    decreases runs.len(),
{
    if runs.len() == 0 {
        Seq::empty()
    } else {
        flatten(runs.drop_last()) + runs.last()
    }
}

/// The messages held by a vector of message vectors.
pub open spec fn msgs_view(v: Seq<Vec<u8>>) -> Seq<Seq<u8>> {
    v.map_values(|m: Vec<u8>| m@)
}

/// Whether the registry `after` is `before` followed by the consumers of newly
/// created blocks, from which nothing is known readable or consumed yet.
pub open spec fn registry_extends(before: Seq<SpscConsumer>, after: Seq<SpscConsumer>) -> bool {
    &&& before.is_prefix_of(after)
    &&& forall|i: int|
        before.len() <= i < after.len() ==> #[trigger] after[i].readable() == Seq::<u8>::empty()
            && after[i].taken() == Seq::<u8>::empty() && after[i].in_order()
}

/// The context went from the block of `before` to new blocks, whose consumers
/// `reg1` appends to `reg0`: the old block's producer is dropped, so its consumer
/// finds the block abandoned, and commits nothing more than it had; every block in
/// between is dropped with nothing committed; the last consumer appended reads the
/// current block.
pub open spec fn moved_blocks(
    before: ThreadContext,
    after: ThreadContext,
    reg0: Seq<SpscConsumer>,
    reg1: Seq<SpscConsumer>,
) -> bool {
    &&& reg0.len() < reg1.len()
    &&& before.block().dropped()
    &&& before.block().stream() == before.block().sent()
    &&& reg1.last().source() == after.block().stream()
    &&& reg1.last().abandoned() == after.block().dropped()
    &&& forall|i: int|
        reg0.len() <= i < reg1.len() - 1 ==> (#[trigger] reg1[i]).abandoned() && reg1[i].source()
            == Seq::<u8>::empty()
}

/// The unbounded mode's promise: a message whose frame fits the largest block
/// is never dropped while the current block can still grow.
pub open spec fn never_drops(ctx: ThreadContext, len: nat) -> bool {
    &&& ctx.spec_mode() == QueueMode::UnboundedBlocking
    &&& 0 < ctx.block().spec_capacity() < MAX_BLOCK_CAPACITY
    &&& frame_padded(len) <= MAX_BLOCK_CAPACITY
    &&& MAX_BLOCK_CAPACITY <= usize::MAX / 2
}

impl ThreadContext {
    pub closed spec fn spec_mode(self) -> QueueMode {
        self.mode
    }

    /// The block the context writes into.
    pub closed spec fn block(self) -> SpscProducer {
        self.producer
    }

    /// A context in `mode` with a fresh block of `start_capacity` bytes, whose
    /// consumer is appended to `registry`.
    pub fn with_mode(mode: QueueMode, start_capacity: usize, registry: &mut Vec<SpscConsumer>) -> (r:
        Self)
        requires
            start_capacity <= usize::MAX / 2,
        ensures
            r.spec_mode() == mode,
            r.block().spec_capacity() == start_capacity,
            r.block().sent() == Seq::<u8>::empty(),
            r.block().sent().is_prefix_of(r.block().stream()),
            final(registry)@.len() == old(registry)@.len() + 1,
            registry_extends(old(registry)@, final(registry)@),
            final(registry)@.last().source() == r.block().stream(),
            final(registry)@.last().abandoned() == r.block().dropped(),
    {
        let (prod, cons) = create_queue(start_capacity);
        registry.push(cons);
        assert(old(registry)@.is_prefix_of(registry@)) by {
            assert(old(registry)@ =~= registry@.subrange(0, old(registry)@.len() as int));
        }
        ThreadContext { producer: prod, mode }
    }

    /// A context that drops messages when full, with a block of the default capacity.
    pub fn new(registry: &mut Vec<SpscConsumer>) -> (r: Self)
        ensures
            r.spec_mode() == QueueMode::BoundedDropping,
            r.block().spec_capacity() == DEFAULT_QUEUE_CAPACITY,
            r.block().sent() == Seq::<u8>::empty(),
            final(registry)@.len() == old(registry)@.len() + 1,
            registry_extends(old(registry)@, final(registry)@),
            final(registry)@.last().source() == r.block().stream(),
            final(registry)@.last().abandoned() == r.block().dropped(),
    {
        ThreadContext::with_mode(QueueMode::BoundedDropping, DEFAULT_QUEUE_CAPACITY, registry)
    }

    pub fn mode(&self) -> (r: QueueMode)
        ensures
            r == self.spec_mode(),
    {
        self.mode
    }

    pub fn set_mode(&mut self, mode: QueueMode)
        ensures
            final(self).spec_mode() == mode,
            final(self).block() == old(self).block(),
    {
        self.mode = mode;
    }

    /// The capacity of the current block.
    pub fn capacity(&self) -> (r: usize)
        ensures
            r == self.block().spec_capacity(),
    {
        self.producer.capacity()
    }

    /// Pushes `data` as one frame. When the block is full, a `BoundedDropping`
    /// context refuses the message; an `UnboundedBlocking` one moves to a new block
    /// of `grown_capacity` bytes, appends its consumer to `registry`, and tries
    /// again, until the push succeeds or the block cannot grow.
    pub fn push(&mut self, data: &[u8], registry: &mut Vec<SpscConsumer>) -> (r: Result<(), PushError>)
        requires
            data@.len() + HEADER_SIZE + CACHE_LINE - 1 <= usize::MAX,
        ensures
            final(self).spec_mode() == old(self).spec_mode(),
            final(self).block().spec_capacity() >= old(self).block().spec_capacity(),
            registry_extends(old(registry)@, final(registry)@),
            old(self).spec_mode() == QueueMode::BoundedDropping ==> final(registry)@ == old(registry)@,
            r is Err ==> r == Err::<(), PushError>(PushError::Full),
            final(registry)@.len() == old(registry)@.len() ==> final(self).block().sent() == old(self).block().sent() + (if r is Ok {
                frame(data@)
            } else {
                Seq::empty()
            }),
            final(registry)@.len() > old(registry)@.len() ==> final(self).block().sent() == (
            if r is Ok {
                frame(data@)
            } else {
                Seq::empty()
            }),
            frame_padded(data@.len()) <= old(self).block().free() ==> r is Ok,
            never_drops(*old(self), data@.len()) ==> r is Ok,
            old(self).spec_mode() == QueueMode::BoundedDropping ==> (r is Err ==> frame_padded(data@.len())
                > final(self).block().free()) && (r is Ok ==> final(self).block().free() + frame_padded(
                data@.len(),
            ) >= old(self).block().free()),
            final(self).block().sent().is_prefix_of(final(self).block().stream()),
            final(registry)@.len() == old(registry)@.len() ==> final(self).block().stream() == old(
                self,
            ).block().stream() && final(self).block().dropped() == old(self).block().dropped(),
            final(registry)@.len() > old(registry)@.len() ==> moved_blocks(
                *old(self),
                *final(self),
                old(registry)@,
                final(registry)@,
            ),
    {
        let bounded = match self.mode {
            QueueMode::BoundedDropping => true,
            QueueMode::UnboundedBlocking => false,
        };
        let ghost start_registry = registry@;
        let ghost start_sent = self.producer.sent();
        let ghost start_cap = self.producer.spec_capacity();
        let ghost promised = never_drops(*self, data@.len());
        let ghost fits = frame_padded(data@.len()) <= self.producer.free();
        let ghost start_stream = self.producer.stream();
        let ghost start_dropped = self.producer.dropped();
        let ghost start_ctx = *self;
        let mut res = self.producer.push(data);
        if bounded {
            return res;
        }
        let mut stuck = false;
        while res.is_err() && !stuck
            invariant
                self.mode == old(self).mode,
                self.mode == QueueMode::UnboundedBlocking,
                data@.len() + HEADER_SIZE + CACHE_LINE - 1 <= usize::MAX,
                self.producer.spec_capacity() >= start_cap,
                registry_extends(start_registry, registry@),
                res is Err ==> res == Err::<(), PushError>(PushError::Full),
                registry@.len() == start_registry.len() ==> self.producer.sent() == start_sent + (
                if res is Ok {
                    frame(data@)
                } else {
                    Seq::empty()
                }),
                registry@.len() > start_registry.len() ==> self.producer.sent() == (if res is Ok {
                    frame(data@)
                } else {
                    Seq::empty()
                }),
                promised ==> !stuck,
                promised ==> 0 < start_cap,
                promised ==> self.producer.spec_capacity() <= MAX_BLOCK_CAPACITY,
                promised ==> (res is Err ==> self.producer.spec_capacity() < MAX_BLOCK_CAPACITY),
                promised ==> frame_padded(data@.len()) <= MAX_BLOCK_CAPACITY <= usize::MAX / 2,
                fits ==> res is Ok,
                start_registry == old(registry)@,
                start_ctx == *old(self),
                start_ctx.block().stream() == start_stream,
                start_ctx.block().dropped() == start_dropped,
                start_ctx.block().sent() == start_sent,
                self.producer.sent().is_prefix_of(self.producer.stream()),
                registry@.len() == start_registry.len() ==> self.producer.stream() == start_stream
                    && self.producer.dropped() == start_dropped,
                registry@.len() > start_registry.len() ==> moved_blocks(start_ctx, *self, start_registry, registry@),
            decreases (if self.producer.spec_capacity() < MAX_BLOCK_CAPACITY {
                MAX_BLOCK_CAPACITY - self.producer.spec_capacity()
            } else {
                0
            }), (if stuck {
                0int
            } else {
                1int
            }),
        {
            let ghost before = registry@;
            match self.producer.grow() {
                None => {
                    stuck = true;
                },
                Some(c) => {
                    registry.push(c);
                    assert(before.is_prefix_of(registry@)) by {
                        assert(before =~= registry@.subrange(0, before.len() as int));
                    }
                    assert(start_registry.is_prefix_of(registry@)) by {
                        assert(start_registry =~= registry@.subrange(0, start_registry.len() as int));
                    }
                    proof {
                        assert(start_sent + Seq::<u8>::empty() =~= start_sent);
                        assert forall|q: int|
                            start_registry.len() <= q < registry@.len() - 1 implies (#[trigger] registry@[q]).abandoned()
                                && registry@[q].source() == Seq::<u8>::empty() by {
                            assert(registry@[q] == before[q]);
                        }
                    }
                    res = self.producer.push(data);
                    assert(Seq::<u8>::empty() + frame(data@) =~= frame(data@));
                },
            }
        }
        res
    }

    /// Pushes one frame of `total_msg` bytes whose payload `encode` writes, growing
    /// into new blocks as `push` does; `encode` runs once, and only when the frame
    /// is committed.
    pub fn push_encoded<R, F: FnMut(&mut [u8]) -> R>(
        &mut self,
        total_msg: usize,
        encode: &mut F,
        registry: &mut Vec<SpscConsumer>,
    ) -> (r: Result<R, PushError>)
        requires
            total_msg + HEADER_SIZE + CACHE_LINE - 1 <= usize::MAX,
            forall|b: &mut [u8]| call_requires(*old(encode), (b,)),
        ensures
            final(self).spec_mode() == old(self).spec_mode(),
            final(self).block().spec_capacity() >= old(self).block().spec_capacity(),
            registry_extends(old(registry)@, final(registry)@),
            old(self).spec_mode() == QueueMode::BoundedDropping ==> final(registry)@ == old(registry)@,
            r is Err ==> r->Err_0 == PushError::Full,
            r is Ok ==> exists|payload: Seq<u8>|
                #![trigger frame(payload)]
                {
                    &&& payload.len() == total_msg
                    &&& (final(registry)@.len() == old(registry)@.len() ==> final(self).block().sent() == old(self).block().sent() + frame(payload))
                    &&& (final(registry)@.len() > old(registry)@.len() ==> final(self).block().sent() == frame(payload))
                    &&& exists|b: &mut [u8]|
                        #![trigger handed(*old(encode), b, total_msg as nat, r->Ok_0)]
                        handed(*old(encode), b, total_msg as nat, r->Ok_0) && payload == fit((*final(b))@, total_msg as nat)
                },
            r is Err ==> final(self).block().sent() == old(self).block().sent() || (final(self).block().sent() == Seq::<u8>::empty() && final(registry)@.len() > old(registry)@.len()),
            frame_padded(total_msg as nat) <= old(self).block().free() ==> r is Ok,
            never_drops(*old(self), total_msg as nat) ==> r is Ok,
            old(self).spec_mode() == QueueMode::BoundedDropping ==> (r is Err ==> frame_padded(
                total_msg as nat,
            ) > final(self).block().free()) && (r is Ok ==> final(self).block().free() + frame_padded(
                total_msg as nat,
            ) >= old(self).block().free()),
            final(self).block().sent().is_prefix_of(final(self).block().stream()),
            final(registry)@.len() == old(registry)@.len() ==> final(self).block().stream() == old(
                self,
            ).block().stream() && final(self).block().dropped() == old(self).block().dropped(),
            final(registry)@.len() > old(registry)@.len() ==> moved_blocks(
                *old(self),
                *final(self),
                old(registry)@,
                final(registry)@,
            ),
    {
        let bounded = match self.mode {
            QueueMode::BoundedDropping => true,
            QueueMode::UnboundedBlocking => false,
        };
        let ghost start_registry = registry@;
        let ghost start_sent = self.producer.sent();
        let ghost start_cap = self.producer.spec_capacity();
        let ghost promised = never_drops(*self, total_msg as nat);
        let ghost fits = frame_padded(total_msg as nat) <= self.producer.free();
        let ghost start_stream = self.producer.stream();
        let ghost start_dropped = self.producer.dropped();
        let ghost start_ctx = *self;
        let mut res = self.producer.push_encoded(total_msg, encode);
        if bounded {
            return res;
        }
        let mut stuck = false;
        while res.is_err() && !stuck
            invariant
                self.mode == old(self).mode,
                self.mode == QueueMode::UnboundedBlocking,
                total_msg + HEADER_SIZE + CACHE_LINE - 1 <= usize::MAX,
                res is Err ==> *encode == *old(encode),
                forall|b: &mut [u8]| call_requires(*old(encode), (b,)),
                self.producer.spec_capacity() >= start_cap,
                registry_extends(start_registry, registry@),
                res is Err ==> res->Err_0 == PushError::Full,
                res is Err ==> (self.producer.sent() == start_sent || (self.producer.sent()
                    == Seq::<u8>::empty() && registry@.len() > start_registry.len())),
                res is Ok ==> exists|payload: Seq<u8>|
                    #![trigger frame(payload)]
                    {
                        &&& payload.len() == total_msg
                        &&& (registry@.len() == start_registry.len() ==> self.producer.sent()
                            == start_sent + frame(payload))
                        &&& (registry@.len() > start_registry.len() ==> self.producer.sent()
                            == frame(payload))
                        &&& exists|b: &mut [u8]|
                            #![trigger handed(*old(encode), b, total_msg as nat, res->Ok_0)]
                            handed(*old(encode), b, total_msg as nat, res->Ok_0) && payload == fit((*final(b))@, total_msg as nat)
                    },
                promised ==> !stuck,
                promised ==> 0 < start_cap,
                promised ==> self.producer.spec_capacity() <= MAX_BLOCK_CAPACITY,
                promised ==> (res is Err ==> self.producer.spec_capacity() < MAX_BLOCK_CAPACITY),
                promised ==> frame_padded(total_msg as nat) <= MAX_BLOCK_CAPACITY <= usize::MAX / 2,
                fits ==> res is Ok,
                start_registry == old(registry)@,
                start_ctx == *old(self),
                start_ctx.block().stream() == start_stream,
                start_ctx.block().dropped() == start_dropped,
                start_ctx.block().sent() == start_sent,
                res is Err && registry@.len() == start_registry.len() ==> self.producer.sent() == start_sent,
                res is Err && registry@.len() > start_registry.len() ==> self.producer.sent() == Seq::<u8>::empty(),
                self.producer.sent().is_prefix_of(self.producer.stream()),
                registry@.len() == start_registry.len() ==> self.producer.stream() == start_stream
                    && self.producer.dropped() == start_dropped,
                registry@.len() > start_registry.len() ==> moved_blocks(start_ctx, *self, start_registry, registry@),
            decreases (if self.producer.spec_capacity() < MAX_BLOCK_CAPACITY {
                MAX_BLOCK_CAPACITY - self.producer.spec_capacity()
            } else {
                0
            }), (if stuck {
                0int
            } else {
                1int
            }),
        {
            let ghost before = registry@;
            match self.producer.grow() {
                None => {
                    stuck = true;
                },
                Some(c) => {
                    registry.push(c);
                    assert(before.is_prefix_of(registry@)) by {
                        assert(before =~= registry@.subrange(0, before.len() as int));
                    }
                    assert(start_registry.is_prefix_of(registry@)) by {
                        assert(start_registry =~= registry@.subrange(0, start_registry.len() as int));
                    }
                    proof {
                        assert forall|q: int|
                            start_registry.len() <= q < registry@.len() - 1 implies (#[trigger] registry@[q]).abandoned()
                                && registry@[q].source() == Seq::<u8>::empty() by {
                            assert(registry@[q] == before[q]);
                        }
                    }
                    res = self.producer.push_encoded(total_msg, encode);
                    proof {
                        if res is Ok {
                            let payload = choose|payload: Seq<u8>|
                                #![trigger frame(payload)]
                                payload.len() == total_msg && self.producer.sent()
                                    == Seq::<u8>::empty() + frame(payload)
                                    && exists|b: &mut [u8]|
                                    #![trigger handed(*old(encode), b, total_msg as nat, res->Ok_0)]
                                    handed(*old(encode), b, total_msg as nat, res->Ok_0) && payload == fit((*final(b))@, total_msg as nat);
                            assert(Seq::<u8>::empty() + frame(payload) =~= frame(payload));
                        }
                    }
                },
            }
        }
        res
    }
}

/// Makes `slot` a context in `mode` whose blocks start at `start_capacity` bytes: a
/// context whose block has exactly that capacity is kept and switched to `mode`;
/// otherwise (or when there is none) a fresh one takes its place, its consumer
/// appended to `registry`.
pub fn set_or_create_with_mode(
    slot: &mut Option<ThreadContext>,
    mode: QueueMode,
    start_capacity: usize,
    registry: &mut Vec<SpscConsumer>,
)
    requires
        start_capacity <= usize::MAX / 2,
    ensures
        *final(slot) matches Some(ctx) && ctx.spec_mode() == mode,
        match *old(slot) {
            Some(ctx) if ctx.block().spec_capacity() == start_capacity => {
                &&& (*final(slot))->0.block() == ctx.block()
                &&& final(registry)@ == old(registry)@
            },
            _ => {
                &&& (*final(slot))->0.block().spec_capacity() == start_capacity
                &&& (*final(slot))->0.block().sent() == Seq::<u8>::empty()
                &&& final(registry)@.len() == old(registry)@.len() + 1
                &&& registry_extends(old(registry)@, final(registry)@)
            },
        },
{
    let keep = match slot {
        Some(ctx) => ctx.capacity() == start_capacity,
        None => false,
    };
    if keep {
        let mut taken: Option<ThreadContext> = None;
        std::mem::swap(&mut taken, slot);
        let mut ctx = taken.unwrap();
        ctx.set_mode(mode);
        *slot = Some(ctx);
    } else {
        *slot = Some(ThreadContext::with_mode(mode, start_capacity, registry));
    }
}

/// Drains every block of `registry`, oldest first, and drops from it the blocks
/// that are left empty after their producer went away; the other blocks stay, in
/// their order.
pub fn poll_all_registered_queues(registry: &mut Vec<SpscConsumer>) -> (r: Vec<Vec<u8>>)
    ensures
        exists|runs: Seq<Seq<Seq<u8>>>, ends: Seq<SpscConsumer>, kept: Seq<int>|
            #![trigger flatten(runs), ends.len(), kept.len()]
            {
                &&& runs.len() == old(registry)@.len()
                &&& ends.len() == old(registry)@.len()
                &&& msgs_view(r@) == flatten(runs)
                &&& forall|i: int|
                    0 <= i < runs.len() ==> #[trigger] drained(old(registry)@[i], ends[i], runs[i])
                &&& increasing_below(kept, old(registry)@.len() as int)
                &&& kept.len() == final(registry)@.len()
                &&& forall|j: int| 0 <= j < kept.len() ==> final(registry)@[j] == ends[#[trigger] kept[j]]
                &&& forall|i: int|
                    0 <= i < ends.len() && !kept.contains(i) ==> (#[trigger] ends[i]).abandoned()
                        && ends[i].readable().len() == 0
                &&& forall|i: int|
                    0 <= i < ends.len() ==> (!kept.contains(i) <==> (#[trigger] ends[i]).abandon_seen()
                        && ends[i].readable().len() == 0)
            },
        final(registry)@.len() <= old(registry)@.len(),
{
    let mut all: Vec<Vec<u8>> = Vec::new();
    let ghost start = registry@;
    let ghost mut runs: Seq<Seq<Seq<u8>>> = Seq::empty();
    let ghost mut ends: Seq<SpscConsumer> = Seq::empty();
    let ghost mut kept: Seq<int> = Seq::empty();
    let mut i: usize = 0;
    while i < registry.len()
        invariant
            i <= registry@.len(),
            start == old(registry)@,
            i <= runs.len() <= start.len(),
            ends.len() == runs.len(),
            kept.len() == i,
            registry@.len() - i == start.len() - runs.len(),
            registry@.subrange(i as int, registry@.len() as int) == start.subrange(
                runs.len() as int,
                start.len() as int,
            ),
            msgs_view(all@) == flatten(runs),
            forall|j: int| 0 <= j < runs.len() ==> #[trigger] drained(start[j], ends[j], runs[j]),
            increasing_below(kept, runs.len() as int),
            forall|j: int| 0 <= j < kept.len() ==> registry@[j] == ends[#[trigger] kept[j]],
            forall|q: int|
                0 <= q < ends.len() && !kept.contains(q) ==> (#[trigger] ends[q]).abandoned()
                    && ends[q].readable().len() == 0,
            forall|q: int|
                0 <= q < ends.len() ==> (!kept.contains(q) <==> (#[trigger] ends[q]).abandon_seen()
                    && ends[q].readable().len() == 0),
        decreases registry@.len() - i,
    {
        let ghost k = runs.len();
        let ghost reg_before = registry@;
        assert(reg_before[i as int] == start[k as int]) by {
            assert(reg_before.subrange(i as int, reg_before.len() as int)[0] == reg_before[i as int]);
        }
        let mut c = registry.remove(i);
        proof {
            let tail = reg_before.subrange(i as int, reg_before.len() as int);
            assert(registry@.subrange(i as int, registry@.len() as int) =~= tail.drop_first());
            assert(start.subrange(k as int, start.len() as int).drop_first() =~= start.subrange(
                k + 1int,
                start.len() as int,
            ));
            assert forall|j: int| 0 <= j < kept.len() implies registry@[j] == ends[#[trigger] kept[j]] by {
                assert(registry@[j] == reg_before[j]);
            }
        }
        let ghost after_remove = registry@;
        let ghost c0 = c;
        let mut msgs = c.pop_all();
        let ghost c1 = c;
        let gone = c.is_abandoned() && c.is_empty();
        proof {
            if pop_run(c0.readable(), c1.readable(), msgs_view(msgs@)) {
                lemma_pop_run_grows(c0.readable(), c1.readable(), c.readable(), msgs_view(msgs@));
            }
            assert(c.abandon_seen() && c.readable().len() == 0 <==> gone);
            assert(drained(c0, c, msgs_view(msgs@))) by {
                assert(msgs_view(msgs@) == msgs@.map_values(|v: Vec<u8>| v@));
            }
            let old_runs = runs;
            let old_ends = ends;
            runs = runs.push(msgs_view(msgs@));
            ends = ends.push(c);
            assert(runs.drop_last() =~= old_runs);
            assert forall|q: int| 0 <= q < old_ends.len() implies ends[q] == old_ends[q] by {}
        }
        let ghost all_before = all@;
        all.append(&mut msgs);
        proof {
            assert(msgs_view(all@) =~= msgs_view(all_before) + runs.last());
            assert(flatten(runs) == flatten(runs.drop_last()) + runs.last());
            assert forall|j: int| 0 <= j < runs.len() implies #[trigger] drained(start[j], ends[j], runs[j]) by {
                if j < k {
                    assert(runs[j] == runs.drop_last()[j]);
                }
            }
        }
        if gone {
            proof {
                assert forall|q: int|
                    0 <= q < ends.len() && !kept.contains(q) implies (#[trigger] ends[q]).abandoned()
                        && ends[q].readable().len() == 0 by {
                    if q == k {
                        assert(ends[q] == c);
                    }
                }
                assert forall|q: int| 0 <= q < ends.len() implies (!kept.contains(q) <==> (#[trigger] ends[q]).abandon_seen()
                    && ends[q].readable().len() == 0) by {
                    if q == k {
                        assert(ends[q] == c);
                        if kept.contains(q) {
                            let w = choose|w: int| 0 <= w < kept.len() && kept[w] == q;
                            assert(kept[w] < k);
                        }
                    }
                }
            }
            assert(registry@.subrange(i as int, registry@.len() as int) =~= start.subrange(
                runs.len() as int,
                start.len() as int,
            ));
        } else {
            let ghost old_kept = kept;
            registry.insert(i, c);
            proof {
                kept = kept.push(k as int);
                assert forall|j: int| 0 <= j < kept.len() implies registry@[j] == ends[#[trigger] kept[j]] by {
                    if j < i {
                        assert(registry@[j] == after_remove[j]);
                        assert(kept[j] == old_kept[j]);
                    }
                }
                assert forall|q: int|
                    0 <= q < ends.len() && !kept.contains(q) implies (#[trigger] ends[q]).abandoned()
                        && ends[q].readable().len() == 0 by {
                    assert(q != k) by {
                        if q == k {
                            assert(kept[kept.len() - 1] == k);
                        }
                    }
                    if old_kept.contains(q) {
                        let w = choose|w: int| 0 <= w < old_kept.len() && old_kept[w] == q;
                        assert(kept[w] == q);
                    }
                }
                assert forall|q: int| 0 <= q < ends.len() implies (!kept.contains(q) <==> (#[trigger] ends[q]).abandon_seen()
                    && ends[q].readable().len() == 0) by {
                    if q == k {
                        assert(ends[q] == c);
                        assert(kept[kept.len() - 1] == k);
                    } else {
                        if old_kept.contains(q) {
                            let w = choose|w: int| 0 <= w < old_kept.len() && old_kept[w] == q;
                            assert(kept[w] == q);
                        }
                        if kept.contains(q) {
                            let w = choose|w: int| 0 <= w < kept.len() && kept[w] == q;
                            if w < old_kept.len() {
                                assert(old_kept[w] == q);
                            }
                        }
                    }
                }
            }
            assert(registry@.subrange(i + 1, registry@.len() as int) =~= after_remove.subrange(
                i as int,
                after_remove.len() as int,
            ));
            i = i + 1;
            assert(registry@.subrange(i as int, registry@.len() as int) =~= start.subrange(
                runs.len() as int,
                start.len() as int,
            ));
        }
    }
    proof {
        assert(runs.len() == start.len());
    }
    all
}

/// Whether some block of `registry` has a readable byte, looking again at what
/// the producers have committed where none was known readable; the blocks stay,
/// in their order, only knowing of more readable bytes.
pub fn has_pending_messages(registry: &mut Vec<SpscConsumer>) -> (r: bool)
    ensures
        final(registry)@.len() == old(registry)@.len(),
        forall|i: int| 0 <= i < old(registry)@.len() ==> #[trigger] refreshed(old(registry)@[i], final(registry)@[i]),
        r <==> exists|i: int| 0 <= i < final(registry)@.len() && (#[trigger] final(registry)@[i]).readable().len() > 0,
{
    let mut i: usize = 0;
    while i < registry.len()
        invariant
            i <= registry@.len() == old(registry)@.len(),
            forall|j: int| 0 <= j < registry@.len() ==> #[trigger] refreshed(old(registry)@[j], registry@[j]),
            forall|j: int| 0 <= j < i ==> (#[trigger] registry@[j]).readable().len() == 0,
        decreases registry@.len() - i,
    {
        let ghost before = registry@;
        let mut c = registry.remove(i);
        let empty = c.is_empty();
        let ghost c_now = c;
        registry.insert(i, c);
        proof {
            assert forall|j: int| 0 <= j < registry@.len() implies #[trigger] refreshed(old(registry)@[j], registry@[j]) by {
                if j != i {
                    assert(registry@[j] == before[j]);
                } else {
                    let a = old(registry)@[j].readable();
                    let b = before[j].readable();
                    assert(registry@[j] == c_now);
                    assert(a.is_prefix_of(c_now.readable())) by {
                        assert(refreshed(old(registry)@[j], before[j]));
                        assert forall|q: int| 0 <= q < a.len() implies a[q] == c_now.readable()[q] by {
                            assert(a[q] == b[q]);
                        }
                    }
                }
            }
            assert forall|j: int| 0 <= j < i implies (#[trigger] registry@[j]).readable().len() == 0 by {
                assert(registry@[j] == before[j]);
            }
        }
        if !empty {
            assert(registry@[i as int].readable().len() > 0);
            return true;
        }
        i = i + 1;
    }
    false
}

} // verus!
