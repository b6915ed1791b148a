use agent_voice_audio::pcm::bytes_to_pcm16;
use agent_voice_audio::pcm::pcm16_to_bytes;
use agent_voice_audio::pcm::sample_from_le_bytes;
use agent_voice_audio::pcm::sample_to_le_bytes;

#[test]
fn sample_encoding_is_little_endian() {
    assert_eq!(sample_to_le_bytes(0x1234), (0x34, 0x12));
    assert_eq!(sample_to_le_bytes(0), (0, 0));
    assert_eq!(sample_to_le_bytes(100), (100, 0));
    assert_eq!(sample_to_le_bytes(-2), (0xFE, 0xFF));
    assert_eq!(sample_to_le_bytes(i16::MIN), (0x00, 0x80));
    assert_eq!(sample_to_le_bytes(i16::MAX), (0xFF, 0x7F));
}

#[test]
fn sample_decoding_inverts_encoding() {
    let values: Vec<i16> = vec![0, 1, -1, 100, -100, 0x1234, -0x1234, i16::MIN, i16::MAX];
    for v in values {
        let (lo, hi) = sample_to_le_bytes(v);
        assert_eq!(sample_from_le_bytes(lo, hi), v);
    }
}

#[test]
fn frame_encoding_round_trips() {
    let samples: Vec<i16> = vec![7, -7, 0, i16::MIN, i16::MAX, 300, -300];
    let bytes = pcm16_to_bytes(&samples);
    assert_eq!(bytes.len(), 2 * samples.len());
    let back = bytes_to_pcm16(&bytes);
    assert_eq!(back, samples);
}

#[test]
fn frame_encoding_exact_bytes() {
    let samples: Vec<i16> = vec![100, -2];
    let bytes = pcm16_to_bytes(&samples);
    assert_eq!(bytes, vec![100u8, 0u8, 0xFEu8, 0xFFu8]);
}

#[test]
fn decoding_ignores_trailing_odd_byte() {
    let bytes: Vec<u8> = vec![100, 0, 99];
    let samples = bytes_to_pcm16(&bytes);
    assert_eq!(samples, vec![100i16]);
}
