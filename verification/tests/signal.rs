use navi::signal::{
    center_window, div_roundup, frame_signal, log_mel_frames, mel_bands, pad_audio, reflect_pad,
    stft_geometry, stft_windows, MelError, HOP_LENGTH, N_FFT,
};

#[test]
fn div_roundup_values() {
    assert_eq!(div_roundup(0, 3), 0);
    assert_eq!(div_roundup(1, 3), 1);
    assert_eq!(div_roundup(3, 3), 1);
    assert_eq!(div_roundup(4, 3), 2);
    assert_eq!(div_roundup(400, 160), 3);
}

#[test]
fn geometry_even_and_odd_windows() {
    let g = stft_geometry(1000, 400, 160);
    assert_eq!(g.pad, 200);
    assert_eq!(g.padded_len, 1400);
    assert_eq!(g.n_freq, 201);
    assert_eq!(g.n_frame, 7);

    let g = stft_geometry(10, 5, 2);
    assert_eq!(g.pad, 2);
    assert_eq!(g.padded_len, 14); // 10 + 5 - 1
    assert_eq!(g.n_freq, 3);
    assert_eq!(g.n_frame, 5);
}

#[test]
fn reflect_pad_mirrors_without_edges() {
    let x = [1, 2, 3, 4, 5];
    assert_eq!(reflect_pad(&x, 2), vec![3, 2, 1, 2, 3, 4, 5, 4, 3]);
    assert_eq!(reflect_pad(&x, 0), vec![1, 2, 3, 4, 5]);
    assert_eq!(reflect_pad(&x, 4), vec![5, 4, 3, 2, 1, 2, 3, 4, 5, 4, 3, 2, 1]);
}

#[test]
fn frames_are_strided_windows() {
    let x: Vec<u32> = (0..10).collect();
    let m = frame_signal(&x, 4, 3);
    // frames start at 0, 3 and 6
    assert_eq!(m.len(), 4);
    assert_eq!(m[0], vec![0, 3, 6]);
    assert_eq!(m[1], vec![1, 4, 7]);
    assert_eq!(m[3], vec![3, 6, 9]);
}

#[test]
fn window_centering() {
    assert_eq!(center_window(&[1, 1], 5, 0), vec![0, 1, 1, 0, 0]);
    assert_eq!(center_window(&[1, 2, 3], 3, 0), vec![1, 2, 3]);
    assert_eq!(center_window(&[1, 2, 3, 4], 2, 0), vec![1, 2, 3, 4]);
}

#[test]
fn stft_windows_of_small_signal() {
    let x = [10, 20, 30, 40, 50, 60];
    let (frames, w) = stft_windows(&x, 4, 2, &[7, 7], 0);
    // padded: 30 20 | 10 20 30 40 50 60 | 50 40
    assert_eq!(frames.len(), 4);
    assert_eq!(frames[0], vec![30, 10, 30, 50]);
    assert_eq!(frames[3], vec![20, 40, 60, 40]);
    assert_eq!(w, vec![0, 7, 7, 0]);
}

#[test]
fn thirty_seconds_give_three_thousand_frames() {
    assert_eq!(log_mel_frames(30 * 16000), 3000);
    assert_eq!(log_mel_frames(N_FFT), N_FFT / HOP_LENGTH);
    assert_eq!(log_mel_frames(1000), 6);
}

#[test]
fn mel_band_choices() {
    assert_eq!(mel_bands(None), Ok(80));
    assert_eq!(mel_bands(Some(128)), Ok(128));
    assert_eq!(mel_bands(Some(64)), Err(MelError::UnsupportedMels(64)));
}

#[test]
fn audio_padding_appends_zeros() {
    let mut a = vec![1.0f32, 2.0];
    pad_audio(&mut a, 3, 0.0);
    assert_eq!(a, vec![1.0, 2.0, 0.0, 0.0, 0.0]);
    pad_audio(&mut a, 0, 0.0);
    assert_eq!(a.len(), 5);
}

#[test]
fn windows_are_centred_on_their_frames() {
    let x: Vec<i32> = (0..50).map(|v| v * 3 - 7).collect();
    let (frames, _) = stft_windows(&x, 8, 5, &[1; 8], 0);
    for f in 0..frames[4].len() {
        if f * 5 < x.len() {
            assert_eq!(frames[4][f], x[f * 5]);
        }
    }
}
