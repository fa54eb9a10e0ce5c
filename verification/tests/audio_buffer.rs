use navi::audio::{AudioBuffer, AudioError, PadSide};

fn buf(samples: &[f32]) -> AudioBuffer<f32> {
    AudioBuffer::new(samples.to_vec(), 16000)
}

#[test]
fn new_and_empty() {
    let b = buf(&[0.5, -0.5]);
    assert_eq!(b.samples, vec![0.5, -0.5]);
    assert_eq!(b.sample_rate, 16000);
    assert!(!b.is_empty());
    let e: AudioBuffer<f32> = AudioBuffer::empty(8000);
    assert!(e.is_empty());
    assert_eq!(e.sample_rate, 8000);
}

#[test]
fn pad_left_right_both() {
    let mut b = buf(&[1.0, 2.0]);
    b.pad(5, 0.0, PadSide::Left).unwrap();
    assert_eq!(b.samples, vec![0.0, 0.0, 0.0, 1.0, 2.0]);

    let mut b = buf(&[1.0, 2.0]);
    b.pad(5, 9.0, PadSide::Right).unwrap();
    assert_eq!(b.samples, vec![1.0, 2.0, 9.0, 9.0, 9.0]);

    let mut b = buf(&[1.0, 2.0]);
    b.pad(5, 0.0, PadSide::Both).unwrap();
    // three samples of padding: one on the left, two on the right
    assert_eq!(b.samples, vec![0.0, 1.0, 2.0, 0.0, 0.0]);
}

#[test]
fn pad_refused_at_or_above_target() {
    let mut b = buf(&[1.0, 2.0, 3.0]);
    assert_eq!(b.pad(3, 0.0, PadSide::Right), Err(AudioError::AlreadyAtLeastTarget));
    assert_eq!(b.pad(2, 0.0, PadSide::Left), Err(AudioError::AlreadyAtLeastTarget));
    assert_eq!(b.samples, vec![1.0, 2.0, 3.0]);
}

#[test]
fn trim_left_right_both() {
    let mut b = buf(&[1.0, 2.0, 3.0, 4.0, 5.0]);
    b.trim(2, PadSide::Left).unwrap();
    assert_eq!(b.samples, vec![4.0, 5.0]);

    let mut b = buf(&[1.0, 2.0, 3.0, 4.0, 5.0]);
    b.trim(2, PadSide::Right).unwrap();
    assert_eq!(b.samples, vec![1.0, 2.0]);

    let mut b = buf(&[1.0, 2.0, 3.0, 4.0, 5.0]);
    b.trim(2, PadSide::Both).unwrap();
    // three samples cut: one from the start, two from the end
    assert_eq!(b.samples, vec![2.0, 3.0]);
}

#[test]
fn trim_refused_at_or_below_target() {
    let mut b = buf(&[1.0, 2.0]);
    assert_eq!(b.trim(2, PadSide::Both), Err(AudioError::AlreadyAtMostTarget));
    assert_eq!(b.trim(7, PadSide::Left), Err(AudioError::AlreadyAtMostTarget));
    assert_eq!(b.samples, vec![1.0, 2.0]);
}

#[test]
fn trim_undoes_pad_on_each_side() {
    for side in [PadSide::Left, PadSide::Both, PadSide::Right] {
        let initial = [0.25f32, -0.75, 0.5];
        let mut b = buf(&initial);
        b.pad(10, 1.0, side).unwrap();
        assert_eq!(b.samples.len(), 10);
        b.trim(3, side).unwrap();
        assert_eq!(b.samples, initial.to_vec());
    }
}

#[test]
fn append_same_rate_and_mismatch() {
    let mut a = buf(&[1.0]);
    let b = buf(&[2.0, 3.0]);
    a.append(&b).unwrap();
    assert_eq!(a.samples, vec![1.0, 2.0, 3.0]);

    let c: AudioBuffer<f32> = AudioBuffer::new(vec![4.0], 44100);
    assert_eq!(a.append(&c), Err(AudioError::SampleRateMismatch { own: 16000, other: 44100 }));
    assert_eq!(a.samples, vec![1.0, 2.0, 3.0]);
}
