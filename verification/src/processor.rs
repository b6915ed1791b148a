//! Trusted boundary to the external audio processor (the `sonora` crate).
//!
//! The processor is an opaque, adaptive block-processing unit: what it writes
//! into an output frame depends on its accumulated internal state, so the
//! wrappers state only what holds of every outcome. Every frame handed to it
//! must hold exactly one 10 ms block of samples at the configured rate.

use vstd::prelude::*;

use sonora::AudioProcessing;

verus! {

#[verifier::external_type_specification]
#[verifier::external_body]
pub struct ExAudioProcessing(AudioProcessing);

/// Relies on `sonora::AudioProcessing::builder` and its `config`,
/// `capture_config`, `render_config` and `build` methods: constructs a
/// single-channel processor with echo cancellation enabled, whose capture and
/// render streams both run at `sample_rate`.
#[verifier::external_body]
pub(crate) fn build_audio_processing(sample_rate: u32) -> (apm: AudioProcessing) {
    let config = sonora::Config {
        echo_canceller: Some(sonora::config::EchoCanceller::default()),
        ..Default::default()
    };
    let stream = sonora::StreamConfig::new(sample_rate, 1);
    AudioProcessing::builder()
        .config(config)
        .capture_config(stream)
        .render_config(stream)
        .build()
}

/// Relies on `sonora::AudioProcessing::set_stream_delay_ms`: the delay is
/// clamped to `[0, 500]` and the call returns `Ok` exactly when no clamping
/// was needed; processing continues either way.
#[verifier::external_body]
pub(crate) fn apm_set_stream_delay_ms(apm: &mut AudioProcessing, delay_ms: i32) -> (ok: bool)
    ensures
        ok <==> (0 <= delay_ms <= 500),
{
    match apm.set_stream_delay_ms(delay_ms) {
        Ok(()) => true,
        Err(_) => false,
    }
}

/// Relies on `sonora::AudioProcessing::process_render_i16_with_config`: feeds
/// one far-end (render reference) frame to the processor so echo cancellation
/// can adapt to the loudspeaker signal. A mono stream at `sample_rate` holds
/// `sample_rate / 100` samples per 10 ms frame; rates sonora does not support
/// make the call return its error without touching the buffers. The output is
/// written in place into `dest`, whose length a slice write cannot change.
#[verifier::external_body]
pub(crate) fn apm_process_render_frame(
    apm: &mut AudioProcessing,
    sample_rate: u32,
    src: &Vec<i16>,
    dest: &mut Vec<i16>,
)
    requires
        src@.len() == sample_rate as int / 100,
        old(dest)@.len() == src@.len(),
    ensures
        final(dest)@.len() == old(dest)@.len(),
{
    let cfg = sonora::StreamConfig::new(sample_rate, 1);
    let _ = apm.process_render_i16_with_config(src.as_slice(), &cfg, &cfg, dest.as_mut_slice());
}

/// Relies on `sonora::AudioProcessing::process_capture_i16_with_config`:
/// processes one near-end (microphone) frame against the render reference
/// learned from earlier render frames, writing the echo-cancelled result in
/// place into `dest`. Same framing contract as the render wrapper; what the
/// processor writes depends on its adaptive state, so only the length is
/// stated.
#[verifier::external_body]
pub(crate) fn apm_process_capture_frame(
    apm: &mut AudioProcessing,
    sample_rate: u32,
    src: &Vec<i16>,
    dest: &mut Vec<i16>,
)
    requires
        src@.len() == sample_rate as int / 100,
        old(dest)@.len() == src@.len(),
    ensures
        final(dest)@.len() == old(dest)@.len(),
{
    let cfg = sonora::StreamConfig::new(sample_rate, 1);
    let _ = apm.process_capture_i16_with_config(src.as_slice(), &cfg, &cfg, dest.as_mut_slice());
}

} // verus!
