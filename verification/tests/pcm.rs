use navi::pcm::{channel_frames, ffmpeg_args, frame_sum, mix_int_frames, pcm_s16le_samples};

#[test]
fn s16le_bytes_to_samples() {
    let bytes = [0x01, 0x00, 0xff, 0xff, 0x00, 0x80, 0xff, 0x7f, 0x42];
    assert_eq!(pcm_s16le_samples(&bytes), vec![1, -1, -32768, 32767]);
    assert_eq!(pcm_s16le_samples(&[]), Vec::<i16>::new());
    for (lo, hi) in [(0x34u8, 0x12u8), (0x00, 0xfe), (0x99, 0x88)] {
        assert_eq!(pcm_s16le_samples(&[lo, hi]), vec![i16::from_le_bytes([lo, hi])]);
    }
}

#[test]
fn ffmpeg_arguments() {
    let args = ffmpeg_args("speech.wav", None);
    let expected = [
        "-nostdin", "-threads", "0", "-i", "speech.wav", "-f", "s16le", "-ac", "1", "-acodec",
        "pcm_s16le", "-ar", "16000", "-",
    ];
    assert_eq!(args, expected.iter().map(|s| s.to_string()).collect::<Vec<_>>());
    let args = ffmpeg_args("a.mp3", Some(8000));
    assert_eq!(args[12], "8000");
    assert_eq!(ffmpeg_args("a.mp3", Some(0))[12], "0");
}

#[test]
fn frames_by_channel_count() {
    let s = [1, 2, 3, 4, 5];
    assert_eq!(channel_frames(&s, 2), vec![vec![1, 2], vec![3, 4], vec![5]]);
    assert_eq!(channel_frames(&s, 1).len(), 5);
    assert_eq!(channel_frames(&s, 5), vec![vec![1, 2, 3, 4, 5]]);
    assert_eq!(channel_frames::<i32>(&[], 3), Vec::<Vec<i32>>::new());
    let std_chunks: Vec<Vec<i32>> = s.chunks(3).map(|c| c.to_vec()).collect();
    assert_eq!(channel_frames(&s, 3), std_chunks);
}

#[test]
fn sums_and_overflow() {
    assert_eq!(frame_sum(&[1, 2, 3]), Some(6));
    assert_eq!(frame_sum(&[]), Some(0));
    assert_eq!(frame_sum(&[i32::MAX, 1]), None);
    assert_eq!(frame_sum(&[i32::MIN, -1]), None);
    assert_eq!(mix_int_frames(&[1, 2, 3, 4, 5], 2), Some(vec![3, 7, 5]));
    assert_eq!(mix_int_frames(&[i32::MAX, i32::MAX], 2), None);
}
