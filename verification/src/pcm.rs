use crate::special::{decimal_chars, decimal_string};
use vstd::prelude::*;
use vstd::string::StringExecFns;

verus! {

/// The signed 16-bit sample stored little-endian in the bytes `lo`, `hi`.
pub open spec fn le_i16(lo: u8, hi: u8) -> i16 {
    let v = lo as int + 256 * hi as int;
    (if v >= 32768 {
        v - 65536
    } else {
        v
    }) as i16
}

/// Reading two bytes back gives the sample they store: the low byte of a sample's 16-bit
/// two's-complement pattern, then the high byte, read as `le_i16`, give the sample.
pub proof fn lemma_le_i16_round_trip(v: i16)
    ensures
        le_i16((v as u16 % 256) as u8, (v as u16 / 256) as u8) == v,
{
    let u: u16 = v as u16;
    assert(u as int == if v < 0 { v + 65536 } else { v as int }) by (bit_vector)
        requires
            u == v as u16,
    ;
    let lo: u8 = (u % 256) as u8;
    let hi: u8 = (u / 256) as u8;
    assert(lo as int + 256 * hi as int == u as int);
    let w: int = if u as int >= 32768 {
        u as int - 65536
    } else {
        u as int
    };
    assert(w == v as int);
    assert(w as i16 == v);
}

/// Reads raw signed 16-bit little-endian PCM: one sample per pair of bytes, a trailing
/// odd byte ignored.
pub fn pcm_s16le_samples(bytes: &[u8]) -> (r: Vec<i16>)
    ensures
        r@.len() == bytes@.len() / 2,
        forall|k: int| 0 <= k < r@.len() ==> #[trigger] r@[k] == le_i16(bytes@[2 * k], bytes@[2 * k + 1]),
{
    let len = bytes.len();
    let n = len / 2;
    let mut out: Vec<i16> = Vec::new();
    let mut k: usize = 0;
    while k < n
        invariant
            k <= n,
            len == bytes@.len(),
            n == len / 2,
            out@.len() == k,
            forall|j: int| 0 <= j < k ==> #[trigger] out@[j] == le_i16(bytes@[2 * j], bytes@[2 * j + 1]),
        decreases n - k,
    {
        let lo = bytes[2 * k];
        let hi = bytes[2 * k + 1];
        let v: i32 = lo as i32 + 256 * (hi as i32);
        let w: i32 = if v >= 32768 {
            v - 65536
        } else {
            v
        };
        out.push(w as i16);
        k = k + 1;
    }
    out
}

/// The sample rate asked of the decoder: 16 kHz unless given.
pub open spec fn decode_rate(sample_rate: Option<usize>) -> usize {
    match sample_rate {
        Some(r) => r,
        None => 16000,
    }
}

/// The arguments that make `ffmpeg` decode `file_path` to mono signed 16-bit
/// little-endian PCM at the given rate on standard output.
pub open spec fn ffmpeg_args_spec(file_path: Seq<char>, sample_rate: Option<usize>) -> Seq<Seq<char>> {
    seq![
        "-nostdin"@,
        "-threads"@,
        "0"@,
        "-i"@,
        file_path,
        "-f"@,
        "s16le"@,
        "-ac"@,
        "1"@,
        "-acodec"@,
        "pcm_s16le"@,
        "-ar"@,
        decimal_chars(decode_rate(sample_rate) as nat),
        "-"@,
    ]
}

/// Without a sample rate the decoder is asked for 16 kHz, as if 16000 were given.
pub proof fn lemma_ffmpeg_default_rate(file_path: Seq<char>)
    ensures
        ffmpeg_args_spec(file_path, None) == ffmpeg_args_spec(file_path, Some(16000)),
{
}

/// The `ffmpeg` command-line arguments for decoding `file_path`.
pub fn ffmpeg_args(file_path: &str, sample_rate: Option<usize>) -> (r: Vec<String>)
    ensures
        r@.map_values(|s: String| s@) == ffmpeg_args_spec(file_path@, sample_rate),
{
    let rate = match sample_rate {
        Some(r) => r,
        None => 16000,
    };
    let mut v: Vec<String> = Vec::new();
    v.push(String::from_str("-nostdin"));
    v.push(String::from_str("-threads"));
    v.push(String::from_str("0"));
    v.push(String::from_str("-i"));
    v.push(String::from_str(file_path));
    v.push(String::from_str("-f"));
    v.push(String::from_str("s16le"));
    v.push(String::from_str("-ac"));
    v.push(String::from_str("1"));
    v.push(String::from_str("-acodec"));
    v.push(String::from_str("pcm_s16le"));
    v.push(String::from_str("-ar"));
    v.push(decimal_string(rate));
    v.push(String::from_str("-"));
    assert(v@.map_values(|s: String| s@) =~= ffmpeg_args_spec(file_path@, sample_rate));
    v
}

/// Interleaved samples grouped into frames of `channels` samples, the last frame
/// holding what is left.
pub open spec fn chunked<T>(s: Seq<T>, channels: nat) -> Seq<Seq<T>> {
    let n = (s.len() + channels - 1) / (channels as int);
    Seq::new(
        n as nat,
        |k: int|
            s.subrange(
                k * channels,
                if (k + 1) * channels <= s.len() {
                    (k + 1) * channels
                } else {
                    s.len() as int
                },
            ),
    )
}

/// Facts about cutting `n` samples into frames of `c`.
proof fn lemma_chunk_bounds(n: int, c: int, nchunks: int, k: int)
    requires
        n >= 0,
        c > 0,
        nchunks == n / c + (if n % c == 0 { 0int } else { 1int }),
        0 <= k < nchunks,
    ensures
        nchunks == (n + c - 1) / c,
        k * c < n,
        n - k * c >= c ==> (k + 1) * c <= n && (k + 1 < nchunks || (k + 1) * c == n),
        n - k * c < c ==> k + 1 == nchunks && (k + 1) * c > n,
        (k + 1) * c == k * c + c,
{
    assert(nchunks == (n + c - 1) / c) by (nonlinear_arith)
        requires
            n >= 0,
            c > 0,
            nchunks == n / c + (if n % c == 0 { 0int } else { 1int }),
    ;
    assert(k * c < n && (k + 1) * c == k * c + c) by (nonlinear_arith)
        requires
            n >= 0,
            c > 0,
            nchunks == n / c + (if n % c == 0 { 0int } else { 1int }),
            0 <= k < nchunks,
    ;
    assert(n - k * c >= c ==> (k + 1) * c <= n && (k + 1 < nchunks || (k + 1) * c == n)) by (nonlinear_arith)
        requires
            n >= 0,
            c > 0,
            nchunks == n / c + (if n % c == 0 { 0int } else { 1int }),
            0 <= k < nchunks,
    ;
    assert(n - k * c < c ==> k + 1 == nchunks && (k + 1) * c > n) by (nonlinear_arith)
        requires
            n >= 0,
            c > 0,
            nchunks == n / c + (if n % c == 0 { 0int } else { 1int }),
            0 <= k < nchunks,
    ;
}

/// Groups interleaved samples into frames of `channels` samples, as `slice::chunks` does.
pub fn channel_frames<T: Copy>(samples: &[T], channels: usize) -> (r: Vec<Vec<T>>)
    requires
        channels > 0,
    ensures
        r@.len() == chunked(samples@, channels as nat).len(),
        forall|k: int| 0 <= k < r@.len() ==> (#[trigger] r@[k])@ == chunked(samples@, channels as nat)[k],
{
    let n = samples.len();
    let ghost c = chunked(samples@, channels as nat);
    let nchunks: usize = if n % channels == 0 {
        n / channels
    } else {
        assert(n / channels < n) by (nonlinear_arith)
            requires
                n % channels != 0,
                channels > 0,
        ;
        n / channels + 1
    };
    let mut out: Vec<Vec<T>> = Vec::new();
    let mut start: usize = 0;
    let mut k: usize = 0;
    if nchunks > 0 {
        proof {
            lemma_chunk_bounds(n as int, channels as int, nchunks as int, 0);
        }
    }
    assert(nchunks == (n as int + channels - 1) / (channels as int)) by (nonlinear_arith)
        requires
            channels > 0,
            nchunks == (n as int) / (channels as int) + (if (n as int) % (channels as int) == 0 { 0int } else { 1int }),
    ;
    while k < nchunks
        invariant
            n == samples@.len(),
            channels > 0,
            c == chunked(samples@, channels as nat),
            nchunks == (n as int) / (channels as int) + (if (n as int) % (channels as int) == 0 { 0int } else { 1int }),
            c.len() == nchunks,
            k <= nchunks,
            k < nchunks ==> start == k * channels,
            out@.len() == k,
            forall|j: int| 0 <= j < k ==> (#[trigger] out@[j])@ == c[j],
        decreases nchunks - k,
    {
        proof {
            lemma_chunk_bounds(n as int, channels as int, nchunks as int, k as int);
        }
        let end = if n - start >= channels {
            start + channels
        } else {
            n
        };
        let frame = crate::audio::copy_range(samples, start, end);
        assert(frame@ == c[k as int]);
        out.push(frame);
        start = end;
        k = k + 1;
    }
    out
}

/// The sum of `s`.
pub open spec fn seq_sum(s: Seq<i32>) -> int
    decreases s.len(),
{
    if s.len() == 0 {
        0
    } else {
        seq_sum(s.drop_last()) + s.last()
    }
}

/// Every running total of `s`, from the left, fits in an `i32`.
pub open spec fn running_sums_fit(s: Seq<i32>) -> bool {
    forall|k: int| 0 <= k <= s.len() ==> i32::MIN <= #[trigger] seq_sum(s.take(k)) <= i32::MAX
}

/// The mix of a frame is the signed sum of its samples: adding a sample, negative or
/// not, adds its value.
pub proof fn lemma_seq_sum_push(s: Seq<i32>, x: i32)
    ensures
        seq_sum(s.push(x)) == seq_sum(s) + x,
{
    assert(s.push(x).drop_last() =~= s);
}

/// The sum of two frames laid end to end is the sum of their sums.
pub proof fn lemma_seq_sum_concat(s: Seq<i32>, t: Seq<i32>)
    ensures
        seq_sum(s + t) == seq_sum(s) + seq_sum(t),
    decreases t.len(),
{
    if t.len() == 0 {
        assert(s + t =~= s);
    } else {
        lemma_seq_sum_concat(s, t.drop_last());
        assert((s + t).drop_last() =~= s + t.drop_last());
        assert((s + t).last() == t.last());
    }
}

/// A two-sample frame sums to `a + b`, and its running totals fit exactly when `a + b`
/// fits in an `i32`.
pub proof fn lemma_seq_sum_pair(a: i32, b: i32)
    ensures
        seq_sum(seq![a, b]) == a + b,
        running_sums_fit(seq![a, b]) <==> i32::MIN <= a + b <= i32::MAX,
{
    let s = seq![a, b];
    let e = Seq::<i32>::empty();
    assert(seq_sum(e) == 0);
    lemma_seq_sum_push(e, a);
    assert(e.push(a) =~= seq![a]);
    lemma_seq_sum_push(seq![a], b);
    assert(seq![a].push(b) =~= s);
    assert(seq_sum(s) == a + b);
    assert(s.take(0) =~= e);
    assert(s.take(1) =~= seq![a]);
    assert(s.take(2) =~= s);
    if i32::MIN <= a + b <= i32::MAX {
        assert forall|k: int| 0 <= k <= s.len() implies i32::MIN <= #[trigger] seq_sum(s.take(k)) <= i32::MAX by {
            if k == 0 {
                assert(s.take(k) == e);
            } else if k == 1 {
                assert(s.take(k) == seq![a]);
            } else {
                assert(s.take(k) == s);
            }
        }
    } else {
        assert(seq_sum(s.take(2)) == a + b);
    }
}

/// Sums a frame of `i32` samples left to right; `None` where a running total leaves the
/// `i32` range (where `Iterator::sum` overflows).
pub fn frame_sum(frame: &[i32]) -> (r: Option<i32>)
    ensures
        r == (if running_sums_fit(frame@) {
            Some(seq_sum(frame@) as i32)
        } else {
            None::<i32>
        }),
        r is Some ==> r->Some_0 as int == seq_sum(frame@),
{
    let mut acc: i32 = 0;
    let mut i: usize = 0;
    assert(frame@.take(0) =~= Seq::<i32>::empty());
    while i < frame.len()
        invariant
            i <= frame@.len(),
            acc == seq_sum(frame@.take(i as int)),
            forall|k: int| 0 <= k <= i ==> i32::MIN <= #[trigger] seq_sum(frame@.take(k)) <= i32::MAX,
        decreases frame@.len() - i,
    {
        assert(frame@.take(i + 1).drop_last() =~= frame@.take(i as int));
        let next: i64 = acc as i64 + frame[i] as i64;
        if next < i32::MIN as i64 || next > i32::MAX as i64 {
            assert(!(i32::MIN <= seq_sum(frame@.take(i + 1)) <= i32::MAX));
            return None;
        }
        acc = next as i32;
        i = i + 1;
    }
    assert(frame@.take(i as int) =~= frame@);
    Some(acc)
}

/// Mixes interleaved `i32` samples to one sum per frame of `channels` samples (the last
/// frame holding what is left); `None` where a sum overflows.
pub fn mix_int_frames(samples: &[i32], channels: usize) -> (r: Option<Vec<i32>>)
    requires
        channels > 0,
    ensures
        match r {
            Some(v) => v@.len() == chunked(samples@, channels as nat).len() && forall|k: int|
                0 <= k < v@.len() ==> running_sums_fit(chunked(samples@, channels as nat)[k])
                    && #[trigger] v@[k] == seq_sum(chunked(samples@, channels as nat)[k]),
            None => exists|k: int|
                0 <= k < chunked(samples@, channels as nat).len() && !running_sums_fit(
                    #[trigger] chunked(samples@, channels as nat)[k],
                ),
        },
{
    let frames = channel_frames(samples, channels);
    let ghost c = chunked(samples@, channels as nat);
    let mut out: Vec<i32> = Vec::new();
    let mut k: usize = 0;
    while k < frames.len()
        invariant
            k <= frames@.len(),
            frames@.len() == c.len(),
            c == chunked(samples@, channels as nat),
            forall|j: int| 0 <= j < frames@.len() ==> (#[trigger] frames@[j])@ == c[j],
            out@.len() == k,
            forall|j: int| 0 <= j < k ==> #[trigger] running_sums_fit(c[j]),
            forall|j: int| 0 <= j < k ==> (#[trigger] out@[j]) == seq_sum(c[j]),
        decreases frames@.len() - k,
    {
        assert(frames@[k as int]@ == c[k as int]);
        match frame_sum(frames[k].as_slice()) {
            Some(s) => {
                assert(running_sums_fit(c[k as int]));
                assert(s as int == seq_sum(c[k as int]));
                let ghost old_out = out@;
                out.push(s);
                assert forall|j: int| 0 <= j < k + 1 implies (#[trigger] out@[j]) == seq_sum(c[j]) by {
                    if j < k {
                        assert(out@[j] == old_out[j]);
                    }
                }
            },
            None => {
                assert(!running_sums_fit(c[k as int]));
                return None;
            },
        }
        k = k + 1;
    }
    Some(out)
}

} // verus!
