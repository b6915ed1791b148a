use agent_voice_audio::playback::PlaybackBuffer;
use agent_voice_audio::queue::BoundedFrameQueue;

#[test]
fn queue_length_never_exceeds_capacity() {
    let mut q = BoundedFrameQueue::new(2);
    q.push(vec![1]);
    q.push(vec![2]);
    q.push(vec![3]);
    q.push(vec![4]);
    assert_eq!(q.len(), 2);
    assert_eq!(q.dropped(), 2);
}

#[test]
fn queue_evicts_oldest_first() {
    let mut q = BoundedFrameQueue::new(2);
    q.push(vec![1]);
    q.push(vec![2]);
    q.push(vec![3]);
    let out = q.pop_many(10);
    assert_eq!(out, vec![vec![2u8], vec![3u8]]);
    assert_eq!(q.len(), 0);
}

#[test]
fn queue_pop_caps_at_length_without_error() {
    let mut q = BoundedFrameQueue::new(4);
    q.push(vec![1]);
    q.push(vec![2]);
    q.push(vec![3]);
    let first = q.pop_many(2);
    assert_eq!(first, vec![vec![1u8], vec![2u8]]);
    let rest = q.pop_many(5);
    assert_eq!(rest, vec![vec![3u8]]);
    let none = q.pop_many(5);
    assert!(none.is_empty());
    assert_eq!(q.dropped(), 0);
}

#[test]
fn playback_underrun_yields_zero_and_counts() {
    let mut b = PlaybackBuffer::new();
    for _ in 0..5 {
        assert_eq!(b.consume_one(), 0);
    }
    assert_eq!(b.underruns(), 5);
    assert_eq!(b.len(), 0);
}

#[test]
fn playback_consumes_fifo_and_holds_last() {
    let mut b = PlaybackBuffer::new();
    let bytes: Vec<u8> = vec![100, 0, 0xFE, 0xFF];
    b.enqueue_bytes(&bytes);
    assert_eq!(b.len(), 2);
    assert_eq!(b.consume_one(), 100);
    assert_eq!(b.held_sample(), 100);
    assert_eq!(b.consume_one(), -2);
    assert_eq!(b.held_sample(), -2);
    assert_eq!(b.underruns(), 0);
    assert_eq!(b.consume_one(), 0);
    assert_eq!(b.held_sample(), 0);
    assert_eq!(b.underruns(), 1);
}
