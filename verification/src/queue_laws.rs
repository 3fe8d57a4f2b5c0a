use vstd::prelude::*;

use crate::queue::{
    frame, frame_padded, frames, front_len, front_message, lemma_frame_front, lemma_frame_len,
    lemma_padded_bounds, took_frame, took_frames, SpscConsumer, SpscProducer,
};

verus! {

/// The frames of the first `j` messages begin the frames of all of them, and the
/// frames of the first `j + 1` are those of the first `j` followed by the frame
/// of message `j`.
pub proof fn lemma_frames_take(msgs: Seq<Seq<u8>>, j: int)
    requires
        0 <= j <= msgs.len(),
    ensures
        frames(msgs.take(j)).is_prefix_of(frames(msgs)),
        j < msgs.len() ==> frames(msgs.take(j + 1)) == frames(msgs.take(j)) + frame(msgs[j]),
    decreases msgs.len(),
{
    if j < msgs.len() {
        assert(msgs.take(j + 1).drop_last() =~= msgs.take(j));
        lemma_frames_take(msgs.drop_last(), j);
        assert(msgs.drop_last().take(j) =~= msgs.take(j));
        let a = frames(msgs.take(j));
        let b = frames(msgs.drop_last());
        assert(a.is_prefix_of(frames(msgs))) by {
            assert forall|q: int| 0 <= q < a.len() implies a[q] == frames(msgs)[q] by {
                assert(a[q] == b[q]);
            }
        }
    } else {
        assert(msgs.take(j) =~= msgs);
    }
}

/// A pop gives back the message that was pushed next: when the bytes a block's
/// producer commits begin with the frames of `pushed`, and the bytes consumed so far
/// are the frames of its first `j` messages, a pop that returns `msg` returns
/// `pushed[j]` and leaves the frames of the first `j + 1` consumed. (A message of
/// 2^32 bytes or more does not come back whole, its header holding the length
/// modulo 2^32.)
pub proof fn lemma_pop_gives_pushed(
    pushed: Seq<Seq<u8>>,
    j: int,
    source: Seq<u8>,
    before: Seq<u8>,
    after: Seq<u8>,
    msg: Seq<u8>,
)
    requires
        frames(pushed).is_prefix_of(source),
        0 <= j < pushed.len(),
        pushed[j].len() < 0x1_0000_0000,
        before == frames(pushed.take(j)),
        took_frame(before, after, source, msg),
    ensures
        msg == pushed[j],
        after == frames(pushed.take(j + 1)),
{
    let data = pushed[j];
    let f = frame(data);
    lemma_frame_len(data);
    lemma_padded_bounds(data.len());
    lemma_frames_take(pushed, j);
    lemma_frames_take(pushed, j + 1);
    assert(frames(pushed.take(j + 1)) == before + f);
    lemma_prefix_trans(frames(pushed.take(j + 1)), frames(pushed), source);
    let chunk = after.skip(before.len() as int);
    lemma_same_after(before, f, after, source, 4);
    lemma_frame_front(data, Seq::empty());
    assert(f + Seq::<u8>::empty() =~= f);
    assert(chunk.take(4) == f.take(4));
    assert(front_len(chunk) == data.len());
    lemma_same_after(before, f, after, source, f.len() as int);
    assert(chunk.take(f.len() as int) =~= chunk);
    assert(f.take(f.len() as int) =~= f);
    assert(after =~= before + chunk);
}

/// `x` begins `z` when it begins `y` and `y` begins `z`.
proof fn lemma_prefix_trans(x: Seq<u8>, y: Seq<u8>, z: Seq<u8>)
    requires
        x.is_prefix_of(y),
        y.is_prefix_of(z),
    ensures
        x.is_prefix_of(z),
{
    assert forall|q: int| 0 <= q < x.len() implies x[q] == z[q] by {
        assert(x[q] == y[q]);
    }
}

/// Two sequences that both begin `source` after the same `before` agree on what
/// they share: the first `n` bytes after `before` in `after` are those of `f`.
proof fn lemma_same_after(before: Seq<u8>, f: Seq<u8>, after: Seq<u8>, source: Seq<u8>, n: int)
    requires
        (before + f).is_prefix_of(source),
        before.is_prefix_of(after),
        after.is_prefix_of(source),
        0 <= n <= f.len(),
        before.len() + n <= after.len(),
    ensures
        after.skip(before.len() as int).take(n) == f.take(n),
{
    let b = before.len() as int;
    assert forall|q: int| 0 <= q < n implies after.skip(b).take(n)[q] == f.take(n)[q] by {
        assert(after[b + q] == source[b + q]);
        assert((before + f)[b + q] == source[b + q]);
    }
    assert(after.skip(b).take(n) =~= f.take(n));
}

/// Successive pops give back the pushed messages in order: from the frames of the
/// first `j` messages of `pushed` consumed, the pops that return `msgs` return
/// `pushed[j]`, `pushed[j + 1]`, ... as far as `pushed` goes, and leave the frames
/// of the messages they returned consumed. Messages of 2^32 bytes or more are left
/// out, as for a single pop.
pub proof fn lemma_pops_give_pushed(
    pushed: Seq<Seq<u8>>,
    j: int,
    source: Seq<u8>,
    before: Seq<u8>,
    after: Seq<u8>,
    msgs: Seq<Seq<u8>>,
)
    requires
        frames(pushed).is_prefix_of(source),
        0 <= j <= pushed.len(),
        forall|i: int| 0 <= i < pushed.len() ==> (#[trigger] pushed[i]).len() < 0x1_0000_0000,
        before == frames(pushed.take(j)),
        took_frames(before, after, source, msgs),
    ensures
        forall|i: int| 0 <= i < msgs.len() && j + i < pushed.len() ==> #[trigger] msgs[i] == pushed[j + i],
        j + msgs.len() <= pushed.len() ==> after == frames(pushed.take(j + msgs.len())),
    decreases msgs.len(),
{
    if msgs.len() > 0 {
        let n = msgs.len() - 1;
        let mid = choose|mid: Seq<u8>|
            #![trigger took_frame(mid, after, source, msgs.last())]
            took_frames(before, mid, source, msgs.drop_last()) && took_frame(mid, after, source, msgs.last());
        lemma_pops_give_pushed(pushed, j, source, before, mid, msgs.drop_last());
        if j + n < pushed.len() {
            lemma_pop_gives_pushed(pushed, j + n, source, mid, after, msgs.last());
        }
        assert forall|i: int| 0 <= i < msgs.len() && j + i < pushed.len() implies #[trigger] msgs[i] == pushed[j + i] by {
            if i < n {
                assert(msgs[i] == msgs.drop_last()[i]);
            }
        }
    }
}

/// A block is first in, first out: when its producer `p` has committed the frames of
/// `pushed` (each under 2^32 bytes) and its consumer went from `c0`, having consumed
/// the frames of the first `j` of them, to `c1` by pops that returned `msgs`, those
/// are `pushed[j]`, `pushed[j + 1]`, ... in order, as far as `pushed` goes.
pub proof fn lemma_block_is_fifo(
    p: SpscProducer,
    c0: SpscConsumer,
    c1: SpscConsumer,
    pushed: Seq<Seq<u8>>,
    j: int,
    msgs: Seq<Seq<u8>>,
)
    requires
        p.sent().is_prefix_of(p.stream()),
        c0.source() == p.stream(),
        frames(pushed).is_prefix_of(p.sent()),
        forall|i: int| 0 <= i < pushed.len() ==> (#[trigger] pushed[i]).len() < 0x1_0000_0000,
        0 <= j <= pushed.len(),
        c0.taken() == frames(pushed.take(j)),
        took_frames(c0.taken(), c1.taken(), c0.source(), msgs),
    ensures
        forall|i: int| 0 <= i < msgs.len() && j + i < pushed.len() ==> #[trigger] msgs[i] == pushed[j + i],
        j + msgs.len() <= pushed.len() ==> c1.taken() == frames(pushed.take(j + msgs.len())),
{
    let fr = frames(pushed);
    assert(fr.is_prefix_of(p.stream())) by {
        assert forall|q: int| 0 <= q < fr.len() implies fr[q] == p.stream()[q] by {
            assert(fr[q] == p.sent()[q]);
        }
    }
    lemma_pops_give_pushed(pushed, j, c0.source(), c0.taken(), c1.taken(), msgs);
}

} // verus!
