//! Bounded FIFO of byte-encoded frames with drop-oldest backpressure.
//!
//! A push onto a full queue evicts the oldest frame and counts one drop; a
//! pop removes up to a requested number of oldest frames, fewer if fewer are
//! buffered. Frames always come out oldest first.

use std::collections::VecDeque;

use vstd::prelude::*;

verus! {

/// A frame queue's contents after pushing `frame` with capacity `cap`: the
/// oldest frame is evicted first when the queue is already at capacity.
pub open spec fn pushed_model(q: Seq<Seq<u8>>, cap: nat, frame: Seq<u8>) -> Seq<Seq<u8>> {
    if q.len() < cap {
        q.push(frame)
    } else {
        q.subrange(1, q.len() as int).push(frame)
    }
}

/// A frame queue's contents after pushing every frame of `frames` in order.
pub open spec fn pushed_all_model(q: Seq<Seq<u8>>, cap: nat, frames: Seq<Seq<u8>>) -> Seq<Seq<u8>>
    decreases frames.len(),
{
    if frames.len() == 0 {
        q
    } else {
        pushed_model(pushed_all_model(q, cap, frames.drop_last()), cap, frames.last())
    }
}

/// A frame queue's length after `n` pushes onto a queue of length `qlen`
/// with capacity `cap`.
pub open spec fn pushed_all_len(qlen: nat, cap: nat, n: nat) -> nat
    decreases n,
{
    if n == 0 {
        qlen
    } else {
        let l = pushed_all_len(qlen, cap, (n - 1) as nat);
        if l < cap {
            l + 1
        } else {
            l
        }
    }
}

/// A frame queue's dropped counter after `n` pushes: starting from `dropped`,
/// exactly one saturating increment per push that arrives at capacity.
pub open spec fn pushed_all_dropped(qlen: nat, cap: nat, dropped: u32, n: nat) -> u32
    decreases n,
{
    if n == 0 {
        dropped
    } else {
        let l = pushed_all_len(qlen, cap, (n - 1) as nat);
        let d = pushed_all_dropped(qlen, cap, dropped, (n - 1) as nat);
        if l < cap {
            d
        } else if d == u32::MAX {
            u32::MAX
        } else {
            (d + 1) as u32
        }
    }
}

/// Unfolding a sequence of pushes by its last push.
pub proof fn lemma_pushed_all_step(q: Seq<Seq<u8>>, cap: nat, frames: Seq<Seq<u8>>, f: Seq<u8>)
    ensures
        pushed_all_model(q, cap, frames.push(f)) == pushed_model(
            pushed_all_model(q, cap, frames),
            cap,
            f,
        ),
{
    assert(frames.push(f).drop_last() =~= frames);
    assert(frames.push(f).last() == f);
}

/// The length of a queue after a sequence of pushes depends only on the
/// starting length, the capacity, and how many frames were pushed.
pub proof fn lemma_pushed_all_len(q: Seq<Seq<u8>>, cap: nat, frames: Seq<Seq<u8>>)
    requires
        1 <= cap,
    ensures
        pushed_all_model(q, cap, frames).len() == pushed_all_len(q.len(), cap, frames.len()),
    decreases frames.len(),
{
    if frames.len() > 0 {
        lemma_pushed_all_len(q, cap, frames.drop_last());
        let prev = pushed_all_model(q, cap, frames.drop_last());
        assert(pushed_all_model(q, cap, frames) == pushed_model(prev, cap, frames.last()));
        assert(prev.len() == pushed_all_len(q.len(), cap, (frames.len() - 1) as nat));
        assert(pushed_model(prev, cap, frames.last()).len() == if prev.len() < cap {
            prev.len() + 1
        } else {
            prev.len()
        });
    }
}

/// A queue that is a suffix of its push history remains one across a push.
pub proof fn lemma_pushed_window(h: Seq<Seq<u8>>, m: Seq<Seq<u8>>, cap: nat, f: Seq<u8>)
    requires
        m.len() <= h.len(),
        m == h.skip(h.len() - m.len()),
        m.len() <= cap,
        1 <= cap,
    ensures
        pushed_model(m, cap, f).len() <= h.push(f).len(),
        pushed_model(m, cap, f) == h.push(f).skip(h.push(f).len() - pushed_model(m, cap, f).len()),
{
    if m.len() < cap {
        assert(pushed_model(m, cap, f) =~= h.push(f).skip(h.len() - m.len()));
    } else {
        assert(pushed_model(m, cap, f) =~= h.push(f).skip(h.len() + 1 - m.len()));
    }
}

/// Queue bound invariant: however many frames are pushed, the queue's length
/// never exceeds its capacity.
pub proof fn lemma_queue_bound(q: Seq<Seq<u8>>, cap: nat, frames: Seq<Seq<u8>>)
    requires
        1 <= cap,
        q.len() <= cap,
    ensures
        pushed_all_model(q, cap, frames).len() <= cap,
    decreases frames.len(),
{
    if frames.len() > 0 {
        lemma_queue_bound(q, cap, frames.drop_last());
    }
}

/// Fixed-capacity FIFO of byte-encoded frames that evicts its oldest frame,
/// and counts the eviction, whenever a push arrives while it is full.
pub struct BoundedFrameQueue {
    frames: VecDeque<Vec<u8>>,
    capacity: usize,
    dropped: u32,
}

impl BoundedFrameQueue {
    /// The buffered frames, oldest first, as byte sequences.
    pub closed spec fn model(&self) -> Seq<Seq<u8>> {
        self.frames@.map_values(|f: Vec<u8>| f@)
    }

    /// The configured maximum number of buffered frames.
    pub closed spec fn cap(&self) -> nat {
        self.capacity as nat
    }

    /// How many pushes evicted an oldest frame, saturating.
    pub closed spec fn dropped_count(&self) -> u32 {
        self.dropped
    }

    /// The queue never holds more frames than its capacity allows.
    pub open spec fn wf(&self) -> bool {
        &&& 1 <= self.cap()
        &&& self.model().len() <= self.cap()
    }

    /// An empty queue for at most `capacity` frames.
    pub fn new(capacity: usize) -> (q: BoundedFrameQueue)
        requires
            1 <= capacity,
        ensures
            q.wf(),
            q.model() == Seq::<Seq<u8>>::empty(),
            q.cap() == capacity,
            q.dropped_count() == 0,
    {
        let q = BoundedFrameQueue { frames: VecDeque::new(), capacity, dropped: 0 };
        proof {
            assert(q.model() =~= Seq::<Seq<u8>>::empty());
        }
        q
    }

    /// How many frames are buffered.
    pub fn len(&self) -> (n: usize)
        ensures
            n == self.model().len(),
    {
        self.frames.len()
    }

    /// Append `frame`; if the queue is already at capacity, evict the oldest
    /// frame first and count the drop.
    pub fn push(&mut self, frame: Vec<u8>)
        requires
            old(self).wf(),
        ensures
            final(self).wf(),
            final(self).cap() == old(self).cap(),
            final(self).model() == pushed_model(old(self).model(), old(self).cap(), frame@),
            final(self).dropped_count() == if old(self).model().len() < old(self).cap() {
                old(self).dropped_count()
            } else {
                old(self).dropped_count().saturating_add(1)
            },
    {
        if self.frames.len() >= self.capacity {
            let _ = self.frames.pop_front();
            self.dropped = self.dropped.saturating_add(1);
        }
        self.frames.push_back(frame);
        proof {
            assert(final(self).model() =~= pushed_model(
                old(self).model(),
                old(self).cap(),
                frame@,
            ));
        }
    }

    /// Remove and return up to `limit` oldest frames, oldest first; fewer
    /// (possibly none) when fewer are buffered.
    pub fn pop_many(&mut self, limit: usize) -> (out: Vec<Vec<u8>>)
        requires
            old(self).wf(),
        ensures
            final(self).wf(),
            final(self).cap() == old(self).cap(),
            final(self).dropped_count() == old(self).dropped_count(),
            out@.map_values(|f: Vec<u8>| f@) == old(self).model().take(
                if limit <= old(self).model().len() {
                    limit as int
                } else {
                    old(self).model().len() as int
                },
            ),
            final(self).model() == old(self).model().skip(
                if limit <= old(self).model().len() {
                    limit as int
                } else {
                    old(self).model().len() as int
                },
            ),
    {
        let take: usize = if limit <= self.frames.len() {
            limit
        } else {
            self.frames.len()
        };
        let mut out: Vec<Vec<u8>> = Vec::new();
        let mut i: usize = 0;
        proof {
            assert(self.frames@ =~= old(self).frames@.skip(0));
            assert(out@ =~= old(self).frames@.take(0));
        }
        while i < take
            invariant
                i <= take,
                take <= old(self).frames@.len(),
                self.capacity == old(self).capacity,
                self.dropped == old(self).dropped,
                self.frames@ == old(self).frames@.skip(i as int),
                out@ == old(self).frames@.take(i as int),
            decreases take - i,
        {
            if let Some(frame) = self.frames.pop_front() {
                out.push(frame);
            }
            i = i + 1;
            proof {
                assert(self.frames@ =~= old(self).frames@.skip(i as int));
                assert(out@ =~= old(self).frames@.take(i as int));
            }
        }
        proof {
            assert(out@.map_values(|f: Vec<u8>| f@) =~= old(self).model().take(take as int));
            assert(self.model() =~= old(self).model().skip(take as int));
        }
        out
    }

    /// How many pushes evicted an oldest frame since construction, saturating.
    pub fn dropped(&self) -> (n: u32)
        ensures
            n == self.dropped_count(),
    {
        self.dropped
    }
}

} // verus!
