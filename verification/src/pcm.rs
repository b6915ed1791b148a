//! 16-bit signed little-endian PCM encoding of sample sequences.
//!
//! Frames and playback submissions are exchanged as packed bytes: two bytes
//! per sample, low byte first, no header.

use vstd::prelude::*;

verus! {

/// The unsigned 16-bit reinterpretation of a signed sample value.
pub open spec fn sample_to_unsigned(s: i16) -> int {
    if s < 0 {
        s + 0x10000
    } else {
        s as int
    }
}

/// The signed sample value stored by an unsigned 16-bit value.
pub open spec fn unsigned_to_sample(u: int) -> int {
    if u >= 0x8000 {
        u - 0x10000
    } else {
        u
    }
}

/// The little-endian byte pair of one sample.
pub open spec fn sample_bytes(s: i16) -> Seq<u8> {
    seq![
        (sample_to_unsigned(s) % 256) as u8,
        (sample_to_unsigned(s) / 256) as u8,
    ]
}

/// The sample stored by a little-endian byte pair.
pub open spec fn sample_of_bytes(lo: u8, hi: u8) -> int {
    unsigned_to_sample(lo + 256 * hi)
}

/// The packed encoding of a sample sequence.
pub open spec fn encode_samples(f: Seq<i16>) -> Seq<u8>
    decreases f.len(),
{
    if f.len() == 0 {
        Seq::empty()
    } else {
        sample_bytes(f[0]) + encode_samples(f.drop_first())
    }
}

/// The samples packed in a byte sequence; a trailing odd byte carries no
/// sample and is ignored.
pub open spec fn decode_bytes(b: Seq<u8>) -> Seq<i16>
    decreases b.len(),
{
    if b.len() < 2 {
        Seq::<i16>::empty()
    } else {
        seq![sample_of_bytes(b[0], b[1]) as i16] + decode_bytes(b.skip(2))
    }
}

pub proof fn lemma_encode_len(f: Seq<i16>)
    ensures
        encode_samples(f).len() == 2 * f.len(),
    decreases f.len(),
{
    if f.len() > 0 {
        lemma_encode_len(f.drop_first());
    }
}

pub proof fn lemma_encode_push(f: Seq<i16>, s: i16)
    ensures
        encode_samples(f.push(s)) == encode_samples(f) + sample_bytes(s),
    decreases f.len(),
{
    if f.len() == 0 {
        assert(f.push(s).drop_first() =~= f);
        assert(f.push(s)[0] == s);
        assert(encode_samples(f.push(s)) == sample_bytes(s) + encode_samples(f));
        assert(sample_bytes(s) + encode_samples(f) =~= sample_bytes(s));
        assert(encode_samples(f) + sample_bytes(s) =~= sample_bytes(s));
    } else {
        assert(f.push(s).drop_first() =~= f.drop_first().push(s));
        lemma_encode_push(f.drop_first(), s);
        assert(encode_samples(f.push(s)) =~= encode_samples(f) + sample_bytes(s));
    }
}

/// Split a sample into its little-endian byte pair.
pub fn sample_to_le_bytes(s: i16) -> (r: (u8, u8))
    ensures
        seq![r.0, r.1] == sample_bytes(s),
{
    let v: i32 = s as i32;
    let u: i32 = if v < 0 {
        v + 0x10000
    } else {
        v
    };
    ((u % 256) as u8, (u / 256) as u8)
}

/// Read the sample stored as a little-endian byte pair.
pub fn sample_from_le_bytes(lo: u8, hi: u8) -> (s: i16)
    ensures
        s as int == sample_of_bytes(lo, hi),
{
    let u: i32 = lo as i32 + 256 * (hi as i32);
    if u >= 0x8000 {
        (u - 0x10000) as i16
    } else {
        u as i16
    }
}

/// Encode a sample sequence as packed 16-bit little-endian PCM.
pub fn pcm16_to_bytes(samples: &Vec<i16>) -> (out: Vec<u8>)
    ensures
        out@ == encode_samples(samples@),
        out@.len() == 2 * samples@.len(),
{
    let mut out: Vec<u8> = Vec::new();
    let mut i: usize = 0;
    while i < samples.len()
        invariant
            i <= samples@.len(),
            out@ == encode_samples(samples@.take(i as int)),
        decreases samples@.len() - i,
    {
        let (lo, hi) = sample_to_le_bytes(samples[i]);
        out.push(lo);
        out.push(hi);
        proof {
            assert(samples@.take(i + 1) =~= samples@.take(i as int).push(samples@[i as int]));
            lemma_encode_push(samples@.take(i as int), samples@[i as int]);
            assert(out@ =~= encode_samples(samples@.take(i as int)) + sample_bytes(
                samples@[i as int],
            ));
        }
        i = i + 1;
    }
    proof {
        assert(samples@.take(samples@.len() as int) =~= samples@);
        lemma_encode_len(samples@);
    }
    out
}

/// Decode packed 16-bit little-endian PCM into samples; a trailing odd byte
/// is ignored.
pub fn bytes_to_pcm16(bytes: &Vec<u8>) -> (out: Vec<i16>)
    ensures
        out@ == decode_bytes(bytes@),
{
    let mut out: Vec<i16> = Vec::new();
    let mut i: usize = 0;
    proof {
        assert(bytes@.skip(0) =~= bytes@);
        assert(out@ + decode_bytes(bytes@) =~= decode_bytes(bytes@));
    }
    while i < bytes.len() && i + 1 < bytes.len()
        invariant
            i % 2 == 0,
            i <= bytes@.len(),
            out@ + decode_bytes(bytes@.skip(i as int)) == decode_bytes(bytes@),
        decreases bytes@.len() - i,
    {
        let s = sample_from_le_bytes(bytes[i], bytes[i + 1]);
        proof {
            assert(bytes@.skip(i as int).skip(2) =~= bytes@.skip(i + 2));
            assert(decode_bytes(bytes@.skip(i as int)) =~= seq![s] + decode_bytes(
                bytes@.skip(i + 2),
            ));
            assert((out@ + seq![s]) + decode_bytes(bytes@.skip(i + 2)) =~= out@ + decode_bytes(
                bytes@.skip(i as int),
            ));
        }
        out.push(s);
        i = i + 2;
    }
    proof {
        assert(decode_bytes(bytes@.skip(i as int)) =~= Seq::<i16>::empty());
        assert(out@ + Seq::<i16>::empty() =~= out@);
    }
    out
}

/// A sample survives encoding to its byte pair and decoding back.
pub proof fn lemma_sample_round_trip(s: i16)
    ensures
        sample_of_bytes(sample_bytes(s)[0], sample_bytes(s)[1]) == s as int,
{
    let u = sample_to_unsigned(s);
    assert(0 <= u < 0x10000);
    assert(u == 256 * (u / 256) + u % 256) by (nonlinear_arith);
    assert(0 <= u % 256 < 256) by (nonlinear_arith);
    assert(0 <= u / 256 < 256) by (nonlinear_arith)
        requires
            0 <= u < 0x10000,
    ;
}

/// A sample sequence survives encoding to packed bytes and decoding back.
pub proof fn lemma_pcm_round_trip(f: Seq<i16>)
    ensures
        decode_bytes(encode_samples(f)) == f,
    decreases f.len(),
{
    if f.len() == 0 {
        assert(decode_bytes(encode_samples(f)) =~= f);
    } else {
        lemma_encode_len(f.drop_first());
        lemma_sample_round_trip(f[0]);
        assert(encode_samples(f).skip(2) =~= encode_samples(f.drop_first()));
        lemma_pcm_round_trip(f.drop_first());
        assert(decode_bytes(encode_samples(f)) =~= f);
    }
}

} // verus!
