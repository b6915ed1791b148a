//! The shared engine state and its control surface.
//!
//! One aggregate holds both directions of the bridging pipeline: the rate
//! converters, the frame accumulators, the bounded frame queues, the playback
//! sample buffer, the external processor handle, and the statistics counters.
//! Real-time callbacks drive `on_captured_device_sample` and
//! `next_output_sample`; a control thread drives the remaining operations.
//! The caller is responsible for mutual exclusion; every operation here is
//! bounded, non-blocking bookkeeping.

use vstd::prelude::*;
use vstd::arithmetic::div_mod::lemma_basic_div;
use vstd::arithmetic::div_mod::lemma_div_by_multiple;
use vstd::arithmetic::div_mod::lemma_div_is_ordered;
use vstd::arithmetic::div_mod::lemma_fundamental_div_mod;
use vstd::arithmetic::div_mod::lemma_fundamental_div_mod_converse;
use vstd::arithmetic::div_mod::lemma_mod_bound;

use sonora::AudioProcessing;

use crate::pcm;
use crate::playback::consume_n_outputs;
use crate::playback::consume_n_state;
use crate::playback::consume_sample;
use crate::playback::consume_state;
use crate::playback::PlaybackBuffer;
use crate::playback::PlaybackModel;
use crate::processor;
use crate::queue::lemma_pushed_all_len;
use crate::queue::lemma_pushed_all_step;
use crate::queue::lemma_pushed_window;
use crate::queue::pushed_all_dropped;
use crate::queue::pushed_all_model;
use crate::queue::BoundedFrameQueue;
use crate::rate::rc_rem;
use crate::rate::rc_steps;

verus! {

/// Recognized configuration options; any field left unset falls back to its
/// documented default.
#[derive(Clone, Copy)]
pub struct AudioEngineOptions {
    /// Pipeline sample rate in Hz; default 24000, floor 8000.
    pub sample_rate: Option<u32>,
    /// Accepted for device negotiation; the pipeline itself is single-channel.
    pub channels: Option<u32>,
    /// Whether captured frames run through echo cancellation; default true.
    pub enable_aec: Option<bool>,
    /// Render-to-capture delay hint for the processor in ms; default 30.
    pub stream_delay_ms: Option<i32>,
    /// Capacity of each bounded frame queue; default 400, must be positive.
    pub max_capture_frames: Option<u32>,
}

/// A statistics snapshot; every counter is monotone until the engine is
/// rebuilt, saturating at the 32-bit limit.
#[derive(Clone, Copy, PartialEq, Eq, Structural, Debug)]
pub struct AudioEngineStats {
    pub capture_frames: u32,
    pub processed_frames: u32,
    pub playback_underruns: u32,
    pub pending_playback_samples: u32,
    pub dropped_raw_frames: u32,
    pub dropped_processed_frames: u32,
}

/// Malformed input, rejected synchronously with no partial effect.
#[derive(Clone, Copy, PartialEq, Eq, Structural, Debug)]
pub enum ValidationError {
    /// The bounded frame queues need room for at least one frame.
    ZeroFrameQueueCapacity,
    /// The processor accepts a stream delay of 0 to 500 ms only.
    StreamDelayOutOfRange,
    /// Playback bytes must pair up into whole 16-bit samples.
    OddPlaybackByteLength,
}

/// The saturating 32-bit value of an unbounded count.
pub open spec fn sat32(n: nat) -> u32 {
    if n > u32::MAX {
        u32::MAX
    } else {
        n as u32
    }
}

/// The fixed-size frames packed head-to-tail in `samples`, each encoded as
/// bytes; a trailing partial frame yields nothing.
pub open spec fn frame_encodings(samples: Seq<i16>, fs: int) -> Seq<Seq<u8>> {
    Seq::new(
        (samples.len() as int / fs) as nat,
        |i: int| pcm::encode_samples(samples.subrange(i * fs, (i + 1) * fs)),
    )
}

/// The pipeline sample rate chosen by `options`: explicit value floored at
/// 8000, else the 24000 default.
pub open spec fn opt_sample_rate(options: Option<AudioEngineOptions>) -> u32 {
    match options {
        Some(o) => match o.sample_rate {
            Some(r) => if r < 8000 {
                8000u32
            } else {
                r
            },
            None => 24000u32,
        },
        None => 24000u32,
    }
}

/// Whether echo cancellation is enabled by `options`; default true.
pub open spec fn opt_enable_aec(options: Option<AudioEngineOptions>) -> bool {
    match options {
        Some(o) => match o.enable_aec {
            Some(b) => b,
            None => true,
        },
        None => true,
    }
}

/// The stream delay hint chosen by `options`; default 30 ms.
pub open spec fn opt_stream_delay_ms(options: Option<AudioEngineOptions>) -> i32 {
    match options {
        Some(o) => match o.stream_delay_ms {
            Some(d) => d,
            None => 30i32,
        },
        None => 30i32,
    }
}

/// The frame queue capacity chosen by `options`; default 400.
pub open spec fn opt_max_capture_frames(options: Option<AudioEngineOptions>) -> u32 {
    match options {
        Some(o) => match o.max_capture_frames {
            Some(n) => n,
            None => 400u32,
        },
        None => 400u32,
    }
}

/// Move the first `n` samples out of `v`, preserving order on both sides.
fn split_off_front(v: &mut Vec<i16>, n: usize) -> (front: Vec<i16>)
    requires
        n <= old(v)@.len(),
    ensures
        front@ == old(v)@.take(n as int),
        final(v)@ == old(v)@.skip(n as int),
{
    let mut front: Vec<i16> = Vec::new();
    let mut i: usize = 0;
    proof {
        assert(front@ =~= v@.take(0));
    }
    while i < n
        invariant
            i <= n,
            n <= v@.len(),
            v@ == old(v)@,
            front@ == old(v)@.take(i as int),
        decreases n - i,
    {
        front.push(v[i]);
        i = i + 1;
        proof {
            assert(front@ =~= old(v)@.take(i as int));
        }
    }
    let mut rest: Vec<i16> = Vec::new();
    let mut j: usize = n;
    proof {
        assert(rest@ =~= old(v)@.subrange(n as int, n as int));
    }
    while j < v.len()
        invariant
            n <= j <= v@.len(),
            v@ == old(v)@,
            rest@ == old(v)@.subrange(n as int, j as int),
        decreases v@.len() - j,
    {
        rest.push(v[j]);
        j = j + 1;
        proof {
            assert(rest@ =~= old(v)@.subrange(n as int, j as int));
        }
    }
    proof {
        assert(rest@ =~= old(v)@.skip(n as int));
    }
    *v = rest;
    front
}

/// A block of `n` silent samples.
fn zero_samples(n: usize) -> (v: Vec<i16>)
    ensures
        v@.len() == n,
{
    let mut v: Vec<i16> = Vec::new();
    let mut i: usize = 0;
    while i < n
        invariant
            i <= n,
            v@.len() == i,
        decreases n - i,
    {
        v.push(0i16);
        i = i + 1;
    }
    v
}

/// The shared, mutually-exclusive-access engine aggregate.
#[verifier::ext_equal]
pub struct EngineState {
    /// Fixed pipeline sample rate in Hz; never changes after construction.
    pub target_sample_rate: u32,
    /// Samples per 10 ms frame: `target_sample_rate / 100`.
    pub frame_size: usize,
    /// Whether captured frames run through echo cancellation.
    pub enable_aec: bool,
    /// Whether the caller currently runs device streams for this engine.
    pub started: bool,
    /// The external processor.
    pub apm: AudioProcessing,
    /// Samples awaiting playback, with underrun accounting and hold value.
    pub playback: PlaybackBuffer,
    /// Pipeline-rate render samples not yet forming a whole frame.
    pub render_accum: Vec<i16>,
    /// Pipeline-rate capture samples not yet forming a whole frame.
    pub capture_accum: Vec<i16>,
    /// Byte-encoded capture frames as taken from the device.
    pub raw_frames: BoundedFrameQueue,
    /// Byte-encoded capture frames after processing.
    pub processed_frames: BoundedFrameQueue,
    /// Native rate of the render device, at least 1.
    pub playback_device_rate: u32,
    /// Native rate of the capture device, at least 1.
    pub capture_device_rate: u32,
    /// Rate converter accumulator, render direction.
    pub playback_step_accum: u64,
    /// Rate converter accumulator, capture direction.
    pub capture_step_accum: u64,
    /// Capture frames completed, saturating.
    pub capture_frames: u32,
    /// Processed frames completed, saturating.
    pub processed_count: u32,
    /// Every pipeline-rate sample ever fed toward the render accumulator.
    pub render_fed: Ghost<Seq<i16>>,
    /// Every pipeline-rate sample ever fed toward the capture accumulator.
    pub capture_fed: Ghost<Seq<i16>>,
    /// Every frame ever pushed to the raw queue, in order.
    pub raw_pushed: Ghost<Seq<Seq<u8>>>,
    /// Every frame ever pushed to the processed queue, in order.
    pub processed_pushed: Ghost<Seq<Seq<u8>>>,
}

/// The fields that never change after construction, equal between `a` and
/// `b`, with the started flag.
pub open spec fn same_config(a: &EngineState, b: &EngineState) -> bool {
    &&& b.target_sample_rate == a.target_sample_rate
    &&& b.frame_size == a.frame_size
    &&& b.enable_aec == a.enable_aec
    &&& b.started == a.started
}

/// The whole capture path equal between `a` and `b`.
pub open spec fn same_capture_side(a: &EngineState, b: &EngineState) -> bool {
    &&& b.capture_accum == a.capture_accum
    &&& b.capture_step_accum == a.capture_step_accum
    &&& b.capture_device_rate == a.capture_device_rate
    &&& b.capture_fed@ == a.capture_fed@
    &&& b.raw_pushed@ == a.raw_pushed@
    &&& b.processed_pushed@ == a.processed_pushed@
    &&& b.raw_frames == a.raw_frames
    &&& b.processed_frames == a.processed_frames
    &&& b.capture_frames == a.capture_frames
    &&& b.processed_count == a.processed_count
}

/// The whole render path equal between `a` and `b`.
pub open spec fn same_render_side(a: &EngineState, b: &EngineState) -> bool {
    &&& b.playback == a.playback
    &&& b.render_accum == a.render_accum
    &&& b.render_fed@ == a.render_fed@
    &&& b.playback_step_accum == a.playback_step_accum
    &&& b.playback_device_rate == a.playback_device_rate
}

impl EngineState {
    /// Structural soundness of the aggregate, except that the capture
    /// accumulator may still hold complete frames awaiting processing.
    pub open spec fn wf_core(&self) -> bool {
        let fs = self.frame_size as int;
        &&& self.target_sample_rate >= 8000
        &&& self.frame_size == self.target_sample_rate as int / 100
        &&& 1 <= self.playback_device_rate
        &&& 1 <= self.capture_device_rate
        &&& self.raw_frames.wf()
        &&& self.processed_frames.wf()
        &&& self.processed_frames.cap() == self.raw_frames.cap()
        &&& self.render_accum@ == self.render_fed@.skip(fs * (self.render_fed@.len() as int / fs))
        &&& self.render_accum@.len() < fs
        &&& self.raw_pushed@.len() * fs <= self.capture_fed@.len()
        &&& self.capture_accum@ == self.capture_fed@.skip(fs * self.raw_pushed@.len() as int)
        &&& forall|i: int|
            0 <= i < self.raw_pushed@.len() ==> #[trigger] self.raw_pushed@[i]
                == pcm::encode_samples(self.capture_fed@.subrange(i * fs, (i + 1) * fs))
        &&& self.processed_pushed@.len() == self.raw_pushed@.len()
        &&& forall|i: int|
            0 <= i < self.processed_pushed@.len() ==> #[trigger] self.processed_pushed@[i].len()
                == 2 * fs
        &&& self.raw_frames.model().len() <= self.raw_pushed@.len()
        &&& self.raw_frames.model() == self.raw_pushed@.skip(
            self.raw_pushed@.len() - self.raw_frames.model().len(),
        )
        &&& self.processed_frames.model().len() <= self.processed_pushed@.len()
        &&& self.processed_frames.model() == self.processed_pushed@.skip(
            self.processed_pushed@.len() - self.processed_frames.model().len(),
        )
        &&& self.capture_frames == sat32(self.raw_pushed@.len())
        &&& self.processed_count == sat32(self.processed_pushed@.len())
    }

    /// Structural soundness of the aggregate between operations: the capture
    /// accumulator holds strictly less than one frame and both rate
    /// converter accumulators sit at or below their device rate.
    pub open spec fn wf(&self) -> bool {
        &&& self.wf_core()
        &&& self.capture_accum@.len() < self.frame_size
        &&& self.playback_step_accum <= self.playback_device_rate
        &&& self.capture_step_accum <= self.capture_device_rate
    }

    /// The statistics snapshot this state reports.
    pub open spec fn stats_model(&self) -> AudioEngineStats {
        AudioEngineStats {
            capture_frames: self.capture_frames,
            processed_frames: self.processed_count,
            playback_underruns: self.playback.model().underruns,
            pending_playback_samples: sat32(self.playback.model().queue.len()),
            dropped_raw_frames: self.raw_frames.dropped_count(),
            dropped_processed_frames: self.processed_frames.dropped_count(),
        }
    }

    /// This state with the started flag cleared and nothing else changed.
    pub open spec fn stop_model(self) -> EngineState {
        EngineState { started: false, ..self }
    }

    /// This state with the started flag set and nothing else changed.
    pub open spec fn start_model(self) -> EngineState {
        EngineState { started: true, ..self }
    }

    /// Configure a fresh engine. Fails when the queue capacity is zero or the
    /// stream delay hint is outside what the processor accepts; otherwise
    /// every buffer is empty, every counter zero, and both rate converters
    /// are provisionally seeded at the pipeline rate.
    pub fn new(options: Option<AudioEngineOptions>) -> (r: Result<EngineState, ValidationError>)
        ensures
            match r {
                Ok(e) => {
                    &&& e.wf()
                    &&& opt_max_capture_frames(options) >= 1
                    &&& 0 <= opt_stream_delay_ms(options) <= 500
                    &&& e.target_sample_rate == opt_sample_rate(options)
                    &&& e.frame_size == opt_sample_rate(options) as int / 100
                    &&& e.enable_aec == opt_enable_aec(options)
                    &&& !e.started
                    &&& e.playback.model() == (PlaybackModel {
                        queue: Seq::<i16>::empty(),
                        underruns: 0,
                        last_sample: 0i16,
                    })
                    &&& e.render_accum@ == Seq::<i16>::empty()
                    &&& e.capture_accum@ == Seq::<i16>::empty()
                    &&& e.raw_frames.model() == Seq::<Seq<u8>>::empty()
                    &&& e.processed_frames.model() == Seq::<Seq<u8>>::empty()
                    &&& e.raw_frames.cap() == opt_max_capture_frames(options)
                    &&& e.raw_frames.dropped_count() == 0
                    &&& e.processed_frames.dropped_count() == 0
                    &&& e.playback_device_rate == opt_sample_rate(options)
                    &&& e.capture_device_rate == opt_sample_rate(options)
                    &&& e.playback_step_accum == opt_sample_rate(options)
                    &&& e.capture_step_accum == opt_sample_rate(options)
                    &&& e.capture_frames == 0
                    &&& e.processed_count == 0
                    &&& e.raw_pushed@ == Seq::<Seq<u8>>::empty()
                    &&& e.processed_pushed@ == Seq::<Seq<u8>>::empty()
                    &&& e.render_fed@ == Seq::<i16>::empty()
                    &&& e.capture_fed@ == Seq::<i16>::empty()
                },
                Err(ValidationError::ZeroFrameQueueCapacity) => opt_max_capture_frames(options)
                    == 0,
                Err(ValidationError::StreamDelayOutOfRange) => {
                    &&& opt_max_capture_frames(options) >= 1
                    &&& !(0 <= opt_stream_delay_ms(options) <= 500)
                },
                Err(ValidationError::OddPlaybackByteLength) => false,
            },
    {
        let rate: u32 = match options {
            Some(o) => match o.sample_rate {
                Some(r) => if r < 8000 {
                    8000
                } else {
                    r
                },
                None => 24000,
            },
            None => 24000,
        };
        let enable_aec: bool = match options {
            Some(o) => match o.enable_aec {
                Some(b) => b,
                None => true,
            },
            None => true,
        };
        let stream_delay_ms: i32 = match options {
            Some(o) => match o.stream_delay_ms {
                Some(d) => d,
                None => 30,
            },
            None => 30,
        };
        let max_capture_frames: u32 = match options {
            Some(o) => match o.max_capture_frames {
                Some(n) => n,
                None => 400,
            },
            None => 400,
        };
        if max_capture_frames == 0 {
            return Err(ValidationError::ZeroFrameQueueCapacity);
        }
        let mut apm = processor::build_audio_processing(rate);
        let delay_ok = processor::apm_set_stream_delay_ms(&mut apm, stream_delay_ms);
        if !delay_ok {
            return Err(ValidationError::StreamDelayOutOfRange);
        }
        let frame_size: usize = (rate / 100) as usize;
        let e = EngineState {
            target_sample_rate: rate,
            frame_size,
            enable_aec,
            started: false,
            apm,
            playback: PlaybackBuffer::new(),
            render_accum: Vec::new(),
            capture_accum: Vec::new(),
            raw_frames: BoundedFrameQueue::new(max_capture_frames as usize),
            processed_frames: BoundedFrameQueue::new(max_capture_frames as usize),
            playback_device_rate: rate,
            capture_device_rate: rate,
            playback_step_accum: rate as u64,
            capture_step_accum: rate as u64,
            capture_frames: 0,
            processed_count: 0,
            render_fed: Ghost(Seq::empty()),
            capture_fed: Ghost(Seq::empty()),
            raw_pushed: Ghost(Seq::empty()),
            processed_pushed: Ghost(Seq::empty()),
        };
        proof {
            let fs = e.frame_size as int;
            lemma_basic_div(0, fs);
            assert(e.render_fed@.skip(fs * (e.render_fed@.len() as int / fs))
                =~= Seq::<i16>::empty());
            assert(e.capture_fed@.skip(fs * e.raw_pushed@.len() as int) =~= Seq::<i16>::empty());
            assert(e.raw_pushed@.skip(0) =~= Seq::<Seq<u8>>::empty());
            assert(e.processed_pushed@.skip(0) =~= Seq::<Seq<u8>>::empty());
        }
        Ok(e)
    }

    /// Record the native device rates once streams are open, coercing each to
    /// at least 1, and reseed both rate converter accumulators so the first
    /// device sample in each direction is served immediately.
    pub fn set_device_rates(&mut self, playback_rate: u32, capture_rate: u32)
        requires
            old(self).wf(),
        ensures
            final(self).wf(),
            final(self).playback_device_rate == if playback_rate >= 1 {
                playback_rate
            } else {
                1u32
            },
            final(self).capture_device_rate == if capture_rate >= 1 {
                capture_rate
            } else {
                1u32
            },
            final(self).playback_step_accum == final(self).playback_device_rate,
            final(self).capture_step_accum == final(self).capture_device_rate,
            same_config(old(self), final(self)),
            final(self).playback == old(self).playback,
            final(self).render_accum == old(self).render_accum,
            final(self).render_fed@ == old(self).render_fed@,
            final(self).capture_accum == old(self).capture_accum,
            final(self).capture_fed@ == old(self).capture_fed@,
            final(self).raw_pushed@ == old(self).raw_pushed@,
            final(self).processed_pushed@ == old(self).processed_pushed@,
            final(self).raw_frames == old(self).raw_frames,
            final(self).processed_frames == old(self).processed_frames,
            final(self).capture_frames == old(self).capture_frames,
            final(self).processed_count == old(self).processed_count,
    {
        self.playback_device_rate = if playback_rate >= 1 {
            playback_rate
        } else {
            1
        };
        self.capture_device_rate = if capture_rate >= 1 {
            capture_rate
        } else {
            1
        };
        self.playback_step_accum = self.playback_device_rate as u64;
        self.capture_step_accum = self.capture_device_rate as u64;
    }

    /// Validate and enqueue playback bytes: an odd byte length is rejected
    /// with no effect; otherwise the decoded samples join the playback
    /// buffer.
    pub fn play(&mut self, pcm16: &Vec<u8>) -> (r: Result<(), ValidationError>)
        requires
            old(self).wf(),
        ensures
            final(self).wf(),
            r is Err <==> pcm16@.len() % 2 != 0,
            r is Err ==> r == Result::<(), ValidationError>::Err(
                ValidationError::OddPlaybackByteLength,
            ) && *final(self) == *old(self),
            r is Ok ==> {
                &&& final(self).playback.model().queue == old(self).playback.model().queue
                    + pcm::decode_bytes(pcm16@)
                &&& final(self).playback.model().underruns == old(self).playback.model().underruns
                &&& final(self).playback.model().last_sample == old(
                    self,
                ).playback.model().last_sample
                &&& same_config(old(self), final(self))
                &&& same_capture_side(old(self), final(self))
                &&& final(self).render_accum == old(self).render_accum
                &&& final(self).render_fed@ == old(self).render_fed@
                &&& final(self).playback_step_accum == old(self).playback_step_accum
                &&& final(self).playback_device_rate == old(self).playback_device_rate
            },
    {
        if pcm16.len() % 2 != 0 {
            return Err(ValidationError::OddPlaybackByteLength);
        }
        self.playback.enqueue_bytes(pcm16);
        Ok(())
    }

    /// Start decision: note the engine as started and tell the caller whether
    /// device streams must be opened; starting twice without an intervening
    /// stop requests nothing.
    pub fn on_start(&mut self) -> (open_streams: bool)
        ensures
            *final(self) == old(self).start_model(),
            open_streams == !old(self).started,
            old(self).wf() ==> final(self).wf(),
    {
        let open_streams = !self.started;
        self.started = true;
        open_streams
    }

    /// Stop decision: note the engine as stopped; every buffer and counter
    /// persists untouched.
    pub fn on_stop(&mut self)
        ensures
            *final(self) == old(self).stop_model(),
            old(self).wf() ==> final(self).wf(),
    {
        self.started = false;
    }

    /// Forward the stream delay hint to the processor; a hint the processor
    /// had to clamp is reported as failure, and processing continues with the
    /// clamped value.
    pub fn set_stream_delay(&mut self, delay_ms: i32) -> (ok: bool)
        requires
            old(self).wf(),
        ensures
            final(self).wf(),
            ok <==> (0 <= delay_ms <= 500),
            same_config(old(self), final(self)),
            same_capture_side(old(self), final(self)),
            same_render_side(old(self), final(self)),
    {
        processor::apm_set_stream_delay_ms(&mut self.apm, delay_ms)
    }

    /// Remove and return up to `limit` oldest raw capture frames.
    pub fn pop_raw_frames(&mut self, limit: usize) -> (out: Vec<Vec<u8>>)
        requires
            old(self).wf(),
        ensures
            final(self).wf(),
            out@.map_values(|f: Vec<u8>| f@) == old(self).raw_frames.model().take(
                if limit <= old(self).raw_frames.model().len() {
                    limit as int
                } else {
                    old(self).raw_frames.model().len() as int
                },
            ),
            final(self).raw_frames.model() == old(self).raw_frames.model().skip(
                if limit <= old(self).raw_frames.model().len() {
                    limit as int
                } else {
                    old(self).raw_frames.model().len() as int
                },
            ),
            final(self).raw_frames.dropped_count() == old(self).raw_frames.dropped_count(),
            final(self).raw_pushed@ == old(self).raw_pushed@,
            final(self).processed_frames == old(self).processed_frames,
            final(self).processed_pushed@ == old(self).processed_pushed@,
            same_config(old(self), final(self)),
            same_render_side(old(self), final(self)),
            final(self).capture_accum == old(self).capture_accum,
            final(self).capture_step_accum == old(self).capture_step_accum,
            final(self).capture_device_rate == old(self).capture_device_rate,
            final(self).capture_fed@ == old(self).capture_fed@,
            final(self).capture_frames == old(self).capture_frames,
            final(self).processed_count == old(self).processed_count,
    {
        let out = self.raw_frames.pop_many(limit);
        proof {
            assert(self.raw_frames.model() =~= self.raw_pushed@.skip(
                self.raw_pushed@.len() - self.raw_frames.model().len(),
            ));
        }
        out
    }

    /// Remove and return up to `limit` oldest processed capture frames.
    pub fn pop_processed_frames(&mut self, limit: usize) -> (out: Vec<Vec<u8>>)
        requires
            old(self).wf(),
        ensures
            final(self).wf(),
            out@.map_values(|f: Vec<u8>| f@) == old(self).processed_frames.model().take(
                if limit <= old(self).processed_frames.model().len() {
                    limit as int
                } else {
                    old(self).processed_frames.model().len() as int
                },
            ),
            final(self).processed_frames.model() == old(self).processed_frames.model().skip(
                if limit <= old(self).processed_frames.model().len() {
                    limit as int
                } else {
                    old(self).processed_frames.model().len() as int
                },
            ),
            final(self).processed_frames.dropped_count() == old(
                self,
            ).processed_frames.dropped_count(),
            final(self).processed_pushed@ == old(self).processed_pushed@,
            final(self).raw_frames == old(self).raw_frames,
            final(self).raw_pushed@ == old(self).raw_pushed@,
            same_config(old(self), final(self)),
            same_render_side(old(self), final(self)),
            final(self).capture_accum == old(self).capture_accum,
            final(self).capture_step_accum == old(self).capture_step_accum,
            final(self).capture_device_rate == old(self).capture_device_rate,
            final(self).capture_fed@ == old(self).capture_fed@,
            final(self).capture_frames == old(self).capture_frames,
            final(self).processed_count == old(self).processed_count,
    {
        let out = self.processed_frames.pop_many(limit);
        proof {
            assert(self.processed_frames.model() =~= self.processed_pushed@.skip(
                self.processed_pushed@.len() - self.processed_frames.model().len(),
            ));
        }
        out
    }

    /// Produce one pipeline-rate render sample: consume from the playback
    /// buffer (counting an underrun if it is empty), feed the sample toward
    /// the render frame accumulator, and hand any completed frame to the
    /// processor as the render reference, whose output the bridge discards.
    pub fn consume_playback_source_sample(&mut self) -> (s: i16)
        requires
            old(self).wf_core(),
        ensures
            final(self).wf_core(),
            s == consume_sample(old(self).playback.model()),
            final(self).playback.model() == consume_state(old(self).playback.model()),
            final(self).render_fed@ == old(self).render_fed@.push(s),
            same_config(old(self), final(self)),
            same_capture_side(old(self), final(self)),
            final(self).playback_step_accum == old(self).playback_step_accum,
            final(self).playback_device_rate == old(self).playback_device_rate,
    {
        let s = self.playback.consume_one();
        self.render_accum.push(s);
        proof {
            let fs = self.frame_size as int;
            let fed = old(self).render_fed@;
            let q = fed.len() as int / fs;
            lemma_fundamental_div_mod(fed.len() as int, fs);
            lemma_mod_bound(fed.len() as int, fs);
            assert(old(self).render_accum@.len() == fed.len() - fs * q);
        }
        self.render_fed = Ghost(self.render_fed@.push(s));
        if self.render_accum.len() == self.frame_size {
            proof {
                let fs = self.frame_size as int;
                let fed = old(self).render_fed@;
                let q = fed.len() as int / fs;
                assert(fs * q == q * fs) by (nonlinear_arith);
                assert((q + 1) * fs == q * fs + fs) by (nonlinear_arith);
                lemma_fundamental_div_mod_converse(fed.len() as int + 1, fs, q + 1, 0);
                assert(fs * ((fed.len() as int + 1) / fs) == fed.len() as int + 1) by {
                    assert(fs * (q + 1) == (q + 1) * fs) by (nonlinear_arith);
                }
            }
            let frame = split_off_front(&mut self.render_accum, self.frame_size);
            let mut out = zero_samples(self.frame_size);
            processor::apm_process_render_frame(
                &mut self.apm,
                self.target_sample_rate,
                &frame,
                &mut out,
            );
            proof {
                let fs = self.frame_size as int;
                assert(self.render_accum@ =~= self.render_fed@.skip(
                    fs * (self.render_fed@.len() as int / fs),
                ));
            }
        } else {
            proof {
                let fs = self.frame_size as int;
                let fed = old(self).render_fed@;
                let q = fed.len() as int / fs;
                let r = fed.len() - fs * q;
                assert(fs * q == q * fs) by (nonlinear_arith);
                lemma_fundamental_div_mod_converse(fed.len() as int + 1, fs, q, r + 1);
                assert(self.render_fed@.skip(fs * q) =~= fed.skip(fs * q).push(s));
            }
        }
        s
    }

    /// Produce one device-rate output sample by zero-order hold: the render
    /// rate converter decides how many pipeline samples to advance (none
    /// when the device outpaces the pipeline), each advanced sample is
    /// consumed from the playback buffer into the render pipeline, and the
    /// currently held sample is emitted.
    pub fn next_output_sample(&mut self) -> (s: i16)
        requires
            old(self).wf(),
        ensures
            final(self).wf(),
            ({
                let p = old(self).target_sample_rate as int;
                let d = old(self).playback_device_rate as int;
                let a = old(self).playback_step_accum as int;
                let k = rc_steps(a, p, d) as nat;
                &&& final(self).playback_step_accum == rc_rem(a, p, d)
                &&& final(self).playback.model() == consume_n_state(old(self).playback.model(), k)
                &&& final(self).render_fed@ == old(self).render_fed@ + consume_n_outputs(
                    old(self).playback.model(),
                    k,
                )
                &&& s == final(self).playback.model().last_sample
            }),
            same_config(old(self), final(self)),
            same_capture_side(old(self), final(self)),
            final(self).playback_device_rate == old(self).playback_device_rate,
    {
        let p = self.target_sample_rate as u64;
        let d = self.playback_device_rate as u64;
        let ghost a0 = old(self).playback_step_accum as int;
        let ghost pd = old(self).playback_device_rate as int;
        let ghost m0 = old(self).playback.model();
        self.playback_step_accum = self.playback_step_accum + p;
        let ghost mut i: int = 0;
        proof {
            assert(self.render_fed@ =~= old(self).render_fed@ + consume_n_outputs(m0, 0));
        }
        while self.playback_step_accum >= d
            invariant
                self.wf_core(),
                same_config(old(self), self),
                same_capture_side(old(self), self),
                self.playback_device_rate == old(self).playback_device_rate,
                d == self.playback_device_rate as u64,
                1 <= d,
                p == self.target_sample_rate as u64,
                0 <= i,
                self.playback_step_accum as int + i * pd == a0 + p,
                pd == d as int,
                self.playback.model() == consume_n_state(m0, i as nat),
                self.render_fed@ == old(self).render_fed@ + consume_n_outputs(m0, i as nat),
            decreases self.playback_step_accum,
        {
            self.playback_step_accum = self.playback_step_accum - d;
            let _ = self.consume_playback_source_sample();
            proof {
                i = i + 1;
                assert(i * pd == (i - 1) * pd + pd) by (nonlinear_arith);
                assert(consume_n_state(m0, i as nat) == consume_state(
                    consume_n_state(m0, (i - 1) as nat),
                ));
                assert(self.render_fed@ =~= old(self).render_fed@ + consume_n_outputs(
                    m0,
                    i as nat,
                ));
            }
        }
        proof {
            lemma_fundamental_div_mod_converse(
                a0 + p,
                pd,
                i,
                self.playback_step_accum as int,
            );
        }
        self.playback.held_sample()
    }

    /// Slice every complete frame off the capture accumulator: each frame is
    /// encoded and pushed to the raw queue, run through the processor when
    /// echo cancellation is enabled (or passed through unchanged otherwise),
    /// and the result is encoded and pushed to the processed queue, with both
    /// frame counters stepped once per frame.
    fn process_capture_frames(&mut self)
        requires
            old(self).wf_core(),
        ensures
            final(self).wf_core(),
            final(self).capture_accum@.len() < final(self).frame_size,
            same_config(old(self), final(self)),
            same_render_side(old(self), final(self)),
            final(self).capture_step_accum == old(self).capture_step_accum,
            final(self).capture_device_rate == old(self).capture_device_rate,
            final(self).capture_fed@ == old(self).capture_fed@,
            ({
                let fs = old(self).frame_size as int;
                let nf = old(self).capture_accum@.len() as int / fs;
                let rfs = frame_encodings(old(self).capture_accum@, fs);
                let cap = old(self).raw_frames.cap();
                let pfs = final(self).processed_pushed@.skip(
                    old(self).processed_pushed@.len() as int,
                );
                &&& final(self).capture_accum@ == old(self).capture_accum@.skip(nf * fs)
                &&& final(self).raw_pushed@ == old(self).raw_pushed@ + rfs
                &&& final(self).raw_frames.model() == pushed_all_model(
                    old(self).raw_frames.model(),
                    cap,
                    rfs,
                )
                &&& final(self).raw_frames.dropped_count() == pushed_all_dropped(
                    old(self).raw_frames.model().len(),
                    cap,
                    old(self).raw_frames.dropped_count(),
                    nf as nat,
                )
                &&& final(self).processed_pushed@.len() == old(self).processed_pushed@.len() + nf
                &&& final(self).processed_pushed@.take(old(self).processed_pushed@.len() as int)
                    == old(self).processed_pushed@
                &&& (!old(self).enable_aec ==> pfs == rfs)
                &&& final(self).processed_frames.model() == pushed_all_model(
                    old(self).processed_frames.model(),
                    cap,
                    pfs,
                )
                &&& final(self).processed_frames.dropped_count() == pushed_all_dropped(
                    old(self).processed_frames.model().len(),
                    cap,
                    old(self).processed_frames.dropped_count(),
                    nf as nat,
                )
            }),
    {
        let ghost fs = old(self).frame_size as int;
        let ghost a0 = old(self).capture_accum@;
        let ghost rfs = frame_encodings(a0, fs);
        let ghost nf = a0.len() as int / fs;
        let ghost cap = old(self).raw_frames.cap();
        let ghost mut j: int = 0;
        let ghost mut pfs: Seq<Seq<u8>> = Seq::empty();
        proof {
            assert(self.capture_accum@ =~= a0.skip(0));
            assert(self.raw_pushed@ =~= old(self).raw_pushed@ + rfs.take(0));
            assert(self.processed_pushed@ =~= old(self).processed_pushed@ + pfs);
        }
        while self.capture_accum.len() >= self.frame_size
            invariant
                old(self).wf_core(),
                self.wf_core(),
                same_config(old(self), self),
                same_render_side(old(self), self),
                self.capture_step_accum == old(self).capture_step_accum,
                self.capture_device_rate == old(self).capture_device_rate,
                self.capture_fed@ == old(self).capture_fed@,
                self.raw_frames.cap() == cap,
                cap == old(self).raw_frames.cap(),
                fs == self.frame_size as int,
                fs == old(self).frame_size as int,
                a0 == old(self).capture_accum@,
                rfs == frame_encodings(a0, fs),
                0 <= j,
                j * fs <= a0.len(),
                self.capture_accum@ == a0.skip(j * fs),
                self.raw_pushed@ == old(self).raw_pushed@ + rfs.take(j),
                self.raw_frames.model() == pushed_all_model(
                    old(self).raw_frames.model(),
                    cap,
                    rfs.take(j),
                ),
                self.raw_frames.dropped_count() == pushed_all_dropped(
                    old(self).raw_frames.model().len(),
                    cap,
                    old(self).raw_frames.dropped_count(),
                    j as nat,
                ),
                pfs.len() == j,
                !self.enable_aec ==> pfs == rfs.take(j),
                forall|t: int| 0 <= t < j ==> #[trigger] pfs[t].len() == 2 * fs,
                self.processed_pushed@ == old(self).processed_pushed@ + pfs,
                self.processed_frames.model() == pushed_all_model(
                    old(self).processed_frames.model(),
                    cap,
                    pfs,
                ),
                self.processed_frames.dropped_count() == pushed_all_dropped(
                    old(self).processed_frames.model().len(),
                    cap,
                    old(self).processed_frames.dropped_count(),
                    j as nat,
                ),
            decreases self.capture_accum.len(),
        {
            proof {
                assert((j + 1) * fs == j * fs + fs) by (nonlinear_arith);
                lemma_div_is_ordered((j + 1) * fs, a0.len() as int, fs);
                lemma_div_by_multiple(j + 1, fs);
            }
            let ghost count_pre = self.raw_pushed@.len() as int;
            let frame = split_off_front(&mut self.capture_accum, self.frame_size);
            proof {
                assert(frame@ =~= a0.subrange(j * fs, (j + 1) * fs));
                assert(self.capture_accum@ =~= a0.skip((j + 1) * fs));
                assert(rfs[j] == pcm::encode_samples(a0.subrange(j * fs, (j + 1) * fs)));
            }
            self.capture_frames = self.capture_frames.saturating_add(1);
            let raw = pcm::pcm16_to_bytes(&frame);
            proof {
                lemma_pushed_window(self.raw_pushed@, self.raw_frames.model(), cap, raw@);
                lemma_pushed_all_step(old(self).raw_frames.model(), cap, rfs.take(j), raw@);
                lemma_pushed_all_len(old(self).raw_frames.model(), cap, rfs.take(j));
                assert(rfs.take(j + 1) =~= rfs.take(j).push(raw@));
            }
            self.raw_pushed = Ghost(self.raw_pushed@.push(raw@));
            self.raw_frames.push(raw);
            let processed_bytes: Vec<u8> = if self.enable_aec {
                let mut out = zero_samples(self.frame_size);
                processor::apm_process_capture_frame(
                    &mut self.apm,
                    self.target_sample_rate,
                    &frame,
                    &mut out,
                );
                pcm::pcm16_to_bytes(&out)
            } else {
                pcm::pcm16_to_bytes(&frame)
            };
            self.processed_count = self.processed_count.saturating_add(1);
            proof {
                lemma_pushed_window(
                    self.processed_pushed@,
                    self.processed_frames.model(),
                    cap,
                    processed_bytes@,
                );
                lemma_pushed_all_step(
                    old(self).processed_frames.model(),
                    cap,
                    pfs,
                    processed_bytes@,
                );
                lemma_pushed_all_len(old(self).processed_frames.model(), cap, pfs);
            }
            self.processed_pushed = Ghost(self.processed_pushed@.push(processed_bytes@));
            self.processed_frames.push(processed_bytes);
            proof {
                pfs = pfs.push(processed_bytes@);
                j = j + 1;
                assert(self.raw_pushed@ =~= old(self).raw_pushed@ + rfs.take(j));
                assert(self.processed_pushed@ =~= old(self).processed_pushed@ + pfs);
                if !self.enable_aec {
                    assert(pfs =~= rfs.take(j));
                }
                // the new raw frame is the next whole chunk of the capture feed
                let count0 = old(self).raw_pushed@.len() as int;
                let fed = self.capture_fed@;
                assert(fs * count0 <= fed.len());
                assert(a0 == fed.skip(fs * count0));
                assert(a0.len() == fed.len() - fs * count0);
                assert(fs * (count0 + j) == fs * count0 + j * fs) by (nonlinear_arith);
                assert(fs * (count0 + j - 1) == fs * count0 + (j - 1) * fs) by (nonlinear_arith);
                assert(self.raw_pushed@.len() == count0 + j);
                assert(self.raw_pushed@.len() * fs == fs * (count0 + j)) by (nonlinear_arith)
                    requires
                        self.raw_pushed@.len() == count0 + j,
                ;
                assert(self.raw_pushed@.len() * fs <= fed.len());
                assert(self.capture_accum@ =~= fed.skip(fs * (count0 + j)));
                assert forall|t: int| 0 <= t < self.raw_pushed@.len() implies #[trigger] self
                    .raw_pushed@[t] == pcm::encode_samples(
                    fed.subrange(t * fs, (t + 1) * fs),
                ) by {
                    assert(0 <= t * fs) by (nonlinear_arith)
                        requires
                            0 <= t,
                            0 < fs,
                    ;
                    vstd::arithmetic::mul::lemma_mul_inequality(t + 1, count0 + j, fs);
                    if t == count_pre {
                        assert(t * fs == fs * count0 + (j - 1) * fs) by (nonlinear_arith)
                            requires
                                t == count0 + j - 1,
                        ;
                        assert((t + 1) * fs == fs * count0 + j * fs) by (nonlinear_arith)
                            requires
                                t == count0 + j - 1,
                        ;
                        assert(a0.subrange((j - 1) * fs, j * fs) =~= fed.subrange(
                            t * fs,
                            (t + 1) * fs,
                        ));
                        assert(self.raw_pushed@[t] == pcm::encode_samples(
                            a0.subrange((j - 1) * fs, j * fs),
                        ));
                    }
                }
            }
        }
        proof {
            lemma_fundamental_div_mod_converse(a0.len() as int, fs, j, a0.len() - j * fs);
            assert(rfs.take(j) =~= rfs);
            assert(pfs =~= self.processed_pushed@.skip(old(self).processed_pushed@.len() as int));
            assert(self.processed_pushed@.take(old(self).processed_pushed@.len() as int)
                =~= old(self).processed_pushed@);
        }
    }

    /// Accept one device-rate captured sample: the capture rate converter
    /// decides how many pipeline-rate copies to append (none when the device
    /// outpaces the pipeline), then every completed frame is processed and
    /// queued.
    pub fn on_captured_device_sample(&mut self, sample: i16)
        requires
            old(self).wf(),
        ensures
            final(self).wf(),
            same_config(old(self), final(self)),
            same_render_side(old(self), final(self)),
            final(self).capture_device_rate == old(self).capture_device_rate,
            ({
                let p = old(self).target_sample_rate as int;
                let d = old(self).capture_device_rate as int;
                let a = old(self).capture_step_accum as int;
                let k = rc_steps(a, p, d);
                let fs = old(self).frame_size as int;
                let fed_new = old(self).capture_accum@ + Seq::new(k as nat, |t: int| sample);
                let nf = fed_new.len() as int / fs;
                let rfs = frame_encodings(fed_new, fs);
                let cap = old(self).raw_frames.cap();
                let pfs = final(self).processed_pushed@.skip(
                    old(self).processed_pushed@.len() as int,
                );
                &&& final(self).capture_step_accum == rc_rem(a, p, d)
                &&& final(self).capture_fed@ == old(self).capture_fed@ + Seq::new(
                    k as nat,
                    |t: int| sample,
                )
                &&& final(self).capture_accum@ == fed_new.skip(nf * fs)
                &&& final(self).raw_pushed@ == old(self).raw_pushed@ + rfs
                &&& final(self).raw_frames.model() == pushed_all_model(
                    old(self).raw_frames.model(),
                    cap,
                    rfs,
                )
                &&& final(self).raw_frames.dropped_count() == pushed_all_dropped(
                    old(self).raw_frames.model().len(),
                    cap,
                    old(self).raw_frames.dropped_count(),
                    nf as nat,
                )
                &&& final(self).processed_pushed@.len() == old(self).processed_pushed@.len() + nf
                &&& (!old(self).enable_aec ==> pfs == rfs)
                &&& final(self).processed_frames.model() == pushed_all_model(
                    old(self).processed_frames.model(),
                    cap,
                    pfs,
                )
                &&& final(self).processed_frames.dropped_count() == pushed_all_dropped(
                    old(self).processed_frames.model().len(),
                    cap,
                    old(self).processed_frames.dropped_count(),
                    nf as nat,
                )
            }),
    {
        let p = self.target_sample_rate as u64;
        let d = self.capture_device_rate as u64;
        let ghost a0 = old(self).capture_step_accum as int;
        let ghost cd = old(self).capture_device_rate as int;
        let ghost fs = old(self).frame_size as int;
        self.capture_step_accum = self.capture_step_accum + p;
        let ghost mut i: int = 0;
        proof {
            assert(self.capture_accum@ =~= old(self).capture_accum@ + Seq::new(
                0,
                |t: int| sample,
            ));
            assert(self.capture_fed@ =~= old(self).capture_fed@ + Seq::new(0, |t: int| sample));
        }
        while self.capture_step_accum >= d
            invariant
                old(self).wf(),
                self.wf_core(),
                same_config(old(self), self),
                same_render_side(old(self), self),
                self.capture_device_rate == old(self).capture_device_rate,
                d == self.capture_device_rate as u64,
                1 <= d,
                p == self.target_sample_rate as u64,
                cd == d as int,
                fs == self.frame_size as int,
                fs == old(self).frame_size as int,
                0 <= i,
                self.capture_step_accum as int + i * cd == a0 + p,
                self.capture_accum@ == old(self).capture_accum@ + Seq::new(
                    i as nat,
                    |t: int| sample,
                ),
                self.capture_fed@ == old(self).capture_fed@ + Seq::new(i as nat, |t: int| sample),
                self.raw_pushed@ == old(self).raw_pushed@,
                self.processed_pushed@ == old(self).processed_pushed@,
                self.raw_frames == old(self).raw_frames,
                self.processed_frames == old(self).processed_frames,
                self.capture_frames == old(self).capture_frames,
                self.processed_count == old(self).processed_count,
            decreases self.capture_step_accum,
        {
            self.capture_step_accum = self.capture_step_accum - d;
            self.capture_accum.push(sample);
            self.capture_fed = Ghost(self.capture_fed@.push(sample));
            proof {
                i = i + 1;
                assert(i * cd == (i - 1) * cd + cd) by (nonlinear_arith);
                assert(self.capture_accum@ =~= old(self).capture_accum@ + Seq::new(
                    i as nat,
                    |t: int| sample,
                ));
                assert(self.capture_fed@ =~= old(self).capture_fed@ + Seq::new(
                    i as nat,
                    |t: int| sample,
                ));
                let count = self.raw_pushed@.len() as int;
                assert(count * fs <= old(self).capture_fed@.len());
                assert(self.capture_accum@ =~= self.capture_fed@.skip(fs * count));
                assert forall|t: int| 0 <= t < self.raw_pushed@.len() implies #[trigger] self
                    .raw_pushed@[t] == pcm::encode_samples(
                    self.capture_fed@.subrange(t * fs, (t + 1) * fs),
                ) by {
                    assert(0 <= t * fs) by (nonlinear_arith)
                        requires
                            0 <= t,
                            0 < fs,
                    ;
                    assert(0 < fs);
                    assert(t + 1 <= count);
                    vstd::arithmetic::mul::lemma_mul_inequality(t + 1, count, fs);
                    assert((t + 1) * fs <= count * fs);
                    assert((t + 1) * fs <= old(self).capture_fed@.len());
                    assert(old(self).capture_fed@.len() <= self.capture_fed@.len());
                    assert(t * fs + fs == (t + 1) * fs) by (nonlinear_arith);
                    assert(self.capture_fed@.subrange(t * fs, (t + 1) * fs)
                        =~= old(self).capture_fed@.subrange(t * fs, (t + 1) * fs));
                    assert(old(self).raw_pushed@[t] == pcm::encode_samples(
                        old(self).capture_fed@.subrange(t * fs, (t + 1) * fs),
                    ));
                }
            }
        }
        proof {
            lemma_fundamental_div_mod_converse(a0 + p, cd, i, self.capture_step_accum as int);
        }
        self.process_capture_frames();
    }

    /// Read the statistics snapshot without mutating anything.
    pub fn get_stats(&self) -> (r: AudioEngineStats)
        ensures
            r == self.stats_model(),
    {
        let pending = self.playback.len();
        let pending32: u32 = if pending > u32::MAX as usize {
            u32::MAX
        } else {
            pending as u32
        };
        AudioEngineStats {
            capture_frames: self.capture_frames,
            processed_frames: self.processed_count,
            playback_underruns: self.playback.underruns(),
            pending_playback_samples: pending32,
            dropped_raw_frames: self.raw_frames.dropped(),
            dropped_processed_frames: self.processed_frames.dropped(),
        }
    }
}

/// Frame integrity: every frame ever pushed to the raw queue is the byte
/// encoding of exactly one whole frame-size slice of the capture feed, the
/// slices are consecutive and non-overlapping, and every frame ever pushed to
/// either queue holds exactly `frame_size` samples (twice that in bytes).
pub proof fn lemma_frame_integrity(s: EngineState)
    requires
        s.wf(),
    ensures
        forall|i: int|
            0 <= i < s.raw_pushed@.len() ==> #[trigger] s.raw_pushed@[i] == pcm::encode_samples(
                s.capture_fed@.subrange(
                    i * (s.frame_size as int),
                    (i + 1) * (s.frame_size as int),
                ),
            ),
        forall|i: int|
            0 <= i < s.raw_pushed@.len() ==> #[trigger] s.raw_pushed@[i].len() == 2
                * s.frame_size,
        forall|i: int|
            0 <= i < s.processed_pushed@.len() ==> #[trigger] s.processed_pushed@[i].len() == 2
                * s.frame_size,
{
    let fs = s.frame_size as int;
    assert forall|i: int| 0 <= i < s.raw_pushed@.len() implies #[trigger] s.raw_pushed@[i].len()
        == 2 * s.frame_size by {
        assert(0 <= i * fs) by (nonlinear_arith)
            requires
                0 <= i,
                0 < fs,
        ;
        assert(i * fs + fs == (i + 1) * fs) by (nonlinear_arith);
        vstd::arithmetic::mul::lemma_mul_inequality(i + 1, s.raw_pushed@.len() as int, fs);
        pcm::lemma_encode_len(s.capture_fed@.subrange(i * fs, (i + 1) * fs));
    }
}

/// 1:1 capture correspondence: over the engine's lifetime, exactly as many
/// frames were pushed to the processed queue as to the raw queue, and the
/// two frame counters agree.
pub proof fn lemma_capture_correspondence(s: EngineState)
    requires
        s.wf(),
    ensures
        s.processed_pushed@.len() == s.raw_pushed@.len(),
        s.processed_count == s.capture_frames,
{
}

/// Idempotent stop: stopping alters nothing but the started flag — the
/// statistics snapshot, the frame queues and every buffer read after a stop
/// equal those before it.
pub proof fn lemma_stop_preserves_state(s: EngineState)
    ensures
        s.stop_model().stats_model() == s.stats_model(),
        s.stop_model().raw_frames == s.raw_frames,
        s.stop_model().processed_frames == s.processed_frames,
        s.stop_model().playback == s.playback,
        s.stop_model().stop_model() == s.stop_model(),
{
}

/// Idempotent start: a second start without an intervening stop leaves the
/// state exactly as it was, and (the started flag being set) requests no new
/// device streams.
pub proof fn lemma_start_idempotent(s: EngineState)
    ensures
        s.start_model().start_model() == s.start_model(),
        s.start_model().started,
        s.start_model().stats_model() == s.stats_model(),
{
}

} // verus!
