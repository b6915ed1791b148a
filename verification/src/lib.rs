//! Audio bridging engine.
//!
//! Bridges hardware-clocked audio device callbacks to a fixed-rate,
//! frame-oriented processing pipeline: an integer-accumulator rate converter
//! per direction, frame accumulators that slice pipeline-rate samples into
//! 10 ms frames, bounded frame queues with drop-oldest backpressure, an
//! unbounded playback sample buffer with underrun fallback, and a statistics
//! surface. The echo/noise processor itself is an external collaborator,
//! reached through a small set of trusted wrappers.

pub mod engine;
pub mod pcm;
pub mod playback;
pub mod queue;
mod processor;
pub mod rate;
