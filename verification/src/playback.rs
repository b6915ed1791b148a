//! Unbounded FIFO of pipeline-rate playback samples with underrun fallback.
//!
//! Submitted bytes are decoded as 16-bit little-endian PCM and appended.
//! Consuming from an empty buffer never blocks: it counts one underrun and
//! synthesizes a zero sample. The most recently produced sample, real or
//! synthesized, is cached as the hold value for zero-order-hold resampling.

use std::collections::VecDeque;

use vstd::prelude::*;

use crate::pcm;

verus! {

/// Spec-level state of a playback sample buffer.
pub ghost struct PlaybackModel {
    /// Samples awaiting playback, oldest first.
    pub queue: Seq<i16>,
    /// How many samples were consumed while the buffer was empty, saturating.
    pub underruns: u32,
    /// The most recently produced sample, real or synthesized.
    pub last_sample: i16,
}

/// The sample produced by consuming once: the oldest queued sample, or zero
/// on underrun.
pub open spec fn consume_sample(m: PlaybackModel) -> i16 {
    if m.queue.len() == 0 {
        0i16
    } else {
        m.queue[0]
    }
}

/// The buffer state after consuming once.
pub open spec fn consume_state(m: PlaybackModel) -> PlaybackModel {
    PlaybackModel {
        queue: if m.queue.len() == 0 {
            m.queue
        } else {
            m.queue.drop_first()
        },
        underruns: if m.queue.len() == 0 {
            if m.underruns == u32::MAX {
                u32::MAX
            } else {
                (m.underruns + 1) as u32
            }
        } else {
            m.underruns
        },
        last_sample: consume_sample(m),
    }
}

/// The buffer state after consuming `n` times.
pub open spec fn consume_n_state(m: PlaybackModel, n: nat) -> PlaybackModel
    decreases n,
{
    if n == 0 {
        m
    } else {
        consume_state(consume_n_state(m, (n - 1) as nat))
    }
}

/// The samples produced by consuming `n` times, in order.
pub open spec fn consume_n_outputs(m: PlaybackModel, n: nat) -> Seq<i16>
    decreases n,
{
    if n == 0 {
        Seq::<i16>::empty()
    } else {
        consume_n_outputs(m, (n - 1) as nat).push(
            consume_sample(consume_n_state(m, (n - 1) as nat)),
        )
    }
}

/// Underrun accounting: consuming `n` samples from an empty buffer raises the
/// underrun counter by exactly `n`, and every produced sample is zero.
pub proof fn lemma_underrun_accounting(m: PlaybackModel, n: nat)
    requires
        m.queue.len() == 0,
        m.underruns + n <= u32::MAX,
    ensures
        consume_n_state(m, n).queue.len() == 0,
        consume_n_state(m, n).underruns == m.underruns + n,
        consume_n_outputs(m, n) == Seq::new(n, |i: int| 0i16),
    decreases n,
{
    if n == 0 {
        assert(consume_n_outputs(m, n) =~= Seq::new(n, |i: int| 0i16));
    } else {
        lemma_underrun_accounting(m, (n - 1) as nat);
        assert(consume_n_outputs(m, n) =~= Seq::new(n, |i: int| 0i16));
    }
}

/// Unbounded FIFO of pipeline-rate samples with an underrun counter and the
/// zero-order hold value.
pub struct PlaybackBuffer {
    queue: VecDeque<i16>,
    underruns: u32,
    last_sample: i16,
}

impl PlaybackBuffer {
    /// The buffer's spec-level state.
    pub closed spec fn model(&self) -> PlaybackModel {
        PlaybackModel { queue: self.queue@, underruns: self.underruns, last_sample: self.last_sample }
    }

    /// An empty buffer holding silence.
    pub fn new() -> (b: PlaybackBuffer)
        ensures
            b.model() == (PlaybackModel {
                queue: Seq::<i16>::empty(),
                underruns: 0,
                last_sample: 0i16,
            }),
    {
        PlaybackBuffer { queue: VecDeque::new(), underruns: 0, last_sample: 0i16 }
    }

    /// How many samples await playback.
    pub fn len(&self) -> (n: usize)
        ensures
            n == self.model().queue.len(),
    {
        self.queue.len()
    }

    /// How many samples were consumed while the buffer was empty, saturating.
    pub fn underruns(&self) -> (n: u32)
        ensures
            n == self.model().underruns,
    {
        self.underruns
    }

    /// The most recently produced sample, real or synthesized.
    pub fn held_sample(&self) -> (s: i16)
        ensures
            s == self.model().last_sample,
    {
        self.last_sample
    }

    /// Decode packed 16-bit little-endian PCM bytes and append the samples; a
    /// trailing odd byte carries no sample and is ignored.
    pub fn enqueue_bytes(&mut self, bytes: &Vec<u8>)
        ensures
            final(self).model().queue == old(self).model().queue + pcm::decode_bytes(bytes@),
            final(self).model().underruns == old(self).model().underruns,
            final(self).model().last_sample == old(self).model().last_sample,
    {
        let samples = pcm::bytes_to_pcm16(bytes);
        let mut i: usize = 0;
        proof {
            assert(self.queue@ =~= old(self).queue@ + samples@.take(0));
        }
        while i < samples.len()
            invariant
                i <= samples@.len(),
                self.underruns == old(self).underruns,
                self.last_sample == old(self).last_sample,
                self.queue@ == old(self).queue@ + samples@.take(i as int),
            decreases samples@.len() - i,
        {
            self.queue.push_back(samples[i]);
            i = i + 1;
            proof {
                assert(self.queue@ =~= old(self).queue@ + samples@.take(i as int));
            }
        }
        proof {
            assert(samples@.take(samples@.len() as int) =~= samples@);
        }
    }

    /// Consume one sample: pop the oldest if present, else count an underrun
    /// and synthesize zero; either way cache the produced sample as the hold
    /// value.
    pub fn consume_one(&mut self) -> (s: i16)
        ensures
            s == consume_sample(old(self).model()),
            final(self).model() == consume_state(old(self).model()),
    {
        let s = match self.queue.pop_front() {
            Some(next) => next,
            None => {
                self.underruns = self.underruns.saturating_add(1);
                0i16
            },
        };
        self.last_sample = s;
        proof {
            assert(final(self).model().queue =~= consume_state(old(self).model()).queue);
        }
        s
    }
}

} // verus!
