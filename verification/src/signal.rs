use vstd::prelude::*;

verus! {

/// Integer division of `a` by `b`, rounded up.
pub fn div_roundup(a: usize, b: usize) -> (r: usize)
    requires
        b > 0,
        a + b <= usize::MAX,
    ensures
        r == (a + b - 1) / (b as int),
        r * b >= a,
        r * b < a + b,
{
    let r = (a + b - 1) / b;
    assert(r * b >= a && r * b < a + b) by (nonlinear_arith)
        requires r == (a + b - 1) / (b as int), b > 0;
    r
}

/// The sample rate the log-mel front end expects, in hertz.
pub const SAMPLE_RATE: usize = 16000;

/// The default number of mel bands.
pub const N_MELS: usize = 80;

/// The FFT window length in samples.
pub const N_FFT: usize = 400;

/// The hop between successive STFT frames in samples.
pub const HOP_LENGTH: usize = 160;

/// The shape of a short-time Fourier transform of `n_samples` samples.
pub struct StftGeometry {
    /// Reflection padding added at each end: `n_fft / 2`.
    pub pad: usize,
    /// Length of the padded signal.
    pub padded_len: usize,
    /// Number of frequency bins: `n_fft / 2 + 1`.
    pub n_freq: usize,
    /// Number of frames: `(padded_len - n_fft) / hop_length + 1`.
    pub n_frame: usize,
}

/// The padded length the transform works on: `n_samples + n_fft` for an even window,
/// `n_samples + n_fft - 1` for an odd one.
pub open spec fn stft_padded_len(n_samples: nat, n_fft: nat) -> nat {
    if n_fft % 2 == 0 {
        n_samples + n_fft
    } else {
        (n_samples + n_fft - 1) as nat
    }
}

/// The number of frames of the transform.
pub open spec fn stft_frames(n_samples: nat, n_fft: nat, hop_length: nat) -> nat {
    ((stft_padded_len(n_samples, n_fft) - n_fft) / (hop_length as int) + 1) as nat
}

/// The shape of the transform of a signal of `n_samples` samples with window length
/// `n_fft` and hop `hop_length`; the signal must be at least one window long.
pub fn stft_geometry(n_samples: usize, n_fft: usize, hop_length: usize) -> (g: StftGeometry)
    requires
        n_fft >= 1,
        hop_length >= 1,
        n_samples >= n_fft,
        n_samples + n_fft <= usize::MAX,
    ensures
        g.pad == n_fft / 2,
        g.padded_len == n_samples + 2 * (n_fft / 2),
        g.padded_len == stft_padded_len(n_samples as nat, n_fft as nat),
        g.n_freq == n_fft / 2 + 1,
        g.n_frame == (g.padded_len - n_fft) / (hop_length as int) + 1,
        g.n_frame == stft_frames(n_samples as nat, n_fft as nat, hop_length as nat),
        g.n_frame >= 1,
{
    let pad = n_fft / 2;
    let padded_len = n_samples + 2 * pad;
    let n_frame = (padded_len - n_fft) / hop_length + 1;
    StftGeometry { pad, padded_len, n_freq: n_fft / 2 + 1, n_frame }
}

/// `x` extended at each end by its mirror image, the edge samples not repeated:
/// `pad` samples on each side.
pub open spec fn reflect_padded<T>(x: Seq<T>, pad: nat) -> Seq<T> {
    Seq::new(
        x.len() + 2 * pad,
        |i: int|
            if i < pad {
                x[pad - i]
            } else if i < pad + x.len() {
                x[i - pad]
            } else {
                x[x.len() - 2 - (i - pad - x.len())]
            },
    )
}

/// Reflection padding mirrors the signal about its first and its last sample, which are
/// not repeated: the signal stands after `pad` samples, the sample `d` places before the
/// first one is `x[d]`, and the sample `d` places after the last one is `x[len - 1 - d]`.
pub proof fn lemma_reflect_pad_mirrors<T>(x: Seq<T>, pad: nat)
    requires
        pad + 1 <= x.len(),
    ensures
        reflect_padded(x, pad).len() == x.len() + 2 * pad,
        forall|j: int| 0 <= j < x.len() ==> reflect_padded(x, pad)[pad + j] == #[trigger] x[j],
        forall|d: int| 1 <= d <= pad ==> reflect_padded(x, pad)[pad - d] == #[trigger] x[d],
        forall|k: int|
            x.len() - 1 - pad <= k < x.len() - 1 ==> reflect_padded(x, pad)[pad + 2 * x.len() - 2 - k]
                == #[trigger] x[k],
{
    let r = reflect_padded(x, pad);
    assert forall|k: int| x.len() - 1 - pad <= k < x.len() - 1 implies r[pad + 2 * x.len() - 2 - k]
        == #[trigger] x[k] by {
        let i = pad + 2 * x.len() - 2 - k;
        assert(x.len() - 2 - (i - pad - x.len()) == k);
    }
}

/// Pads `x` by reflection at both ends, as the transform centres its windows.
pub fn reflect_pad<T: Copy>(x: &[T], pad: usize) -> (r: Vec<T>)
    requires
        pad + 1 <= x.len(),
    ensures
        r@ == reflect_padded(x@, pad as nat),
{
    let n = x.len();
    let mut out: Vec<T> = Vec::new();
    let mut i: usize = 0;
    while i < pad
        invariant
            i <= pad,
            pad + 1 <= n,
            n == x@.len(),
            out@ == reflect_padded(x@, pad as nat).take(i as int),
        decreases pad - i,
    {
        out.push(x[pad - i]);
        i = i + 1;
        assert(out@ =~= reflect_padded(x@, pad as nat).take(i as int));
    }
    let mut j: usize = 0;
    while j < n
        invariant
            j <= n,
            pad + 1 <= n,
            n == x@.len(),
            out@ == reflect_padded(x@, pad as nat).take(pad + j),
        decreases n - j,
    {
        out.push(x[j]);
        j = j + 1;
        assert(out@ =~= reflect_padded(x@, pad as nat).take(pad + j));
    }
    let mut k: usize = 0;
    while k < pad
        invariant
            k <= pad,
            pad + 1 <= n,
            n == x@.len(),
            out@ == reflect_padded(x@, pad as nat).take(pad + n + k),
        decreases pad - k,
    {
        out.push(x[n - 2 - k]);
        k = k + 1;
        assert(out@ =~= reflect_padded(x@, pad as nat).take(pad + n + k));
    }
    assert(out@ =~= reflect_padded(x@, pad as nat));
    out
}

/// The window padded with `zero` at both ends to length `n_fft` (the end getting the
/// larger half); a window of at least `n_fft` samples is kept as it is.
pub open spec fn centered_window<T>(w: Seq<T>, n_fft: nat, zero: T) -> Seq<T> {
    if w.len() < n_fft {
        let left = ((n_fft - w.len()) / 2) as nat;
        let right = (n_fft - w.len() - left) as nat;
        Seq::new(left, |_i: int| zero) + w + Seq::new(right, |_i: int| zero)
    } else {
        w
    }
}

/// Centres a window shorter than `n_fft` by padding it with `zero`.
pub fn center_window<T: Copy>(w: &[T], n_fft: usize, zero: T) -> (r: Vec<T>)
    ensures
        r@ == centered_window(w@, n_fft as nat, zero),
{
    let wl = w.len();
    if wl < n_fft {
        let left = (n_fft - wl) / 2;
        let right = n_fft - wl - left;
        let mut out = crate::audio::repeat_value(zero, left);
        crate::audio::extend_from(&mut out, w);
        let tail = crate::audio::repeat_value(zero, right);
        crate::audio::extend_from(&mut out, tail.as_slice());
        assert(out@ =~= centered_window(w@, n_fft as nat, zero));
        out
    } else {
        crate::audio::copy_range(w, 0, wl)
    }
}

/// `q * d <= n` when `q` is `n / d`.
proof fn lemma_div_mul_le(n: int, d: int, q: int)
    requires
        n >= 0,
        d > 0,
        q == n / d,
    ensures
        q * d <= n,
        q >= 0,
{
    assert(q * d <= n && q >= 0) by (nonlinear_arith)
        requires
            n >= 0,
            d > 0,
            q == n / d,
    ;
}

/// `a * d <= q * d` when `a <= q` and `d > 0`.
proof fn lemma_mul_le(a: int, q: int, d: int)
    requires
        0 <= a <= q,
        d > 0,
    ensures
        a * d <= q * d,
{
    assert(a * d <= q * d) by (nonlinear_arith)
        requires
            0 <= a <= q,
            d > 0,
    ;
}

/// The overlapping windows of a padded signal as an `n_fft` by `n_frame` matrix: row
/// `r` of frame `f` is sample `f * hop_length + r`.
pub open spec fn framed<T>(x: Seq<T>, n_fft: nat, hop_length: nat) -> Seq<Seq<T>> {
    let n_frame = ((x.len() - n_fft) / (hop_length as int) + 1) as nat;
    Seq::new(n_fft, |r: int| Seq::new(n_frame, |f: int| x[f * hop_length + r]))
}

/// Cuts a padded signal into overlapping windows of `n_fft` samples, `hop_length` apart;
/// row `r` of the result holds sample `r` of every window.
pub fn frame_signal<T: Copy>(x: &[T], n_fft: usize, hop_length: usize) -> (r: Vec<Vec<T>>)
    requires
        hop_length >= 1,
        1 <= n_fft <= x.len(),
    ensures
        r@.len() == n_fft,
        forall|i: int| 0 <= i < n_fft ==> (#[trigger] r@[i])@ == framed(x@, n_fft as nat, hop_length as nat)[i],
        forall|i: int| 0 <= i < n_fft ==> (#[trigger] r@[i])@.len() == (x.len() - n_fft) / (hop_length as int) + 1,
{
    let n = x.len();
    let n_frame = (n - n_fft) / hop_length + 1;
    proof {
        lemma_div_mul_le((n - n_fft) as int, hop_length as int, (n_frame - 1) as int);
    }
    let ghost m = framed(x@, n_fft as nat, hop_length as nat);
    let mut rows: Vec<Vec<T>> = Vec::new();
    let mut r: usize = 0;
    while r < n_fft
        invariant
            r <= n_fft,
            n_fft <= n,
            n == x@.len(),
            hop_length >= 1,
            n_frame == (n - n_fft) / (hop_length as int) + 1,
            (n_frame - 1) * hop_length <= n - n_fft,
            m == framed(x@, n_fft as nat, hop_length as nat),
            rows@.len() == r,
            forall|i: int| 0 <= i < r ==> (#[trigger] rows@[i])@ == m[i],
        decreases n_fft - r,
    {
        let mut row: Vec<T> = Vec::new();
        let mut f: usize = 0;
        while f < n_frame
            invariant
                f <= n_frame,
                r < n_fft,
                n_fft <= n,
                n == x@.len(),
                hop_length >= 1,
                (n_frame - 1) * hop_length <= n - n_fft,
                row@ == Seq::new(f as nat, |k: int| x@[k * hop_length + r]),
            decreases n_frame - f,
        {
            proof {
                lemma_mul_le(f as int, (n_frame - 1) as int, hop_length as int);
            }
            row.push(x[f * hop_length + r]);
            f = f + 1;
            assert(row@ =~= Seq::new(f as nat, |k: int| x@[k * hop_length + r]));
        }
        assert(row@ =~= m[r as int]);
        rows.push(row);
        r = r + 1;
    }
    rows
}

/// The signal-side work of the short-time Fourier transform of one signal: the
/// reflection-padded signal cut into its `n_fft`-sample windows (rows are sample
/// offsets, columns frames), and the window function centred to `n_fft` samples.
pub fn stft_windows<T: Copy>(signal: &[T], n_fft: usize, hop_length: usize, window: &[T], zero: T) -> (r: (
    Vec<Vec<T>>,
    Vec<T>,
))
    requires
        n_fft >= 1,
        hop_length >= 1,
        signal.len() >= n_fft,
        signal.len() + n_fft <= usize::MAX,
    ensures
        r.0@.len() == n_fft,
        forall|i: int|
            0 <= i < n_fft ==> (#[trigger] r.0@[i])@ == framed(
                reflect_padded(signal@, (n_fft / 2) as nat),
                n_fft as nat,
                hop_length as nat,
            )[i],
        forall|i: int|
            0 <= i < n_fft ==> (#[trigger] r.0@[i])@.len() == stft_frames(
                signal.len() as nat,
                n_fft as nat,
                hop_length as nat,
            ),
        r.1@ == centered_window(window@, n_fft as nat, zero),
{
    let g = stft_geometry(signal.len(), n_fft, hop_length);
    let padded = reflect_pad(signal, g.pad);
    let windows = frame_signal(padded.as_slice(), n_fft, hop_length);
    let w = center_window(window, n_fft, zero);
    (windows, w)
}

/// The transform's shape as its documentation gives it: `n_fft / 2 + 1` frequency bins
/// and `(n_sample_padded - n_fft) / hop_length + 1` frames, where `n_sample_padded` is
/// `n_sample + n_fft` for an even `n_fft` and `n_sample + n_fft - 1` for an odd one;
/// this is the number of windows cut from the reflection-padded signal.
pub proof fn lemma_stft_shape<T>(signal: Seq<T>, n_fft: nat, hop_length: nat)
    requires
        n_fft >= 1,
        hop_length >= 1,
        signal.len() >= n_fft,
    ensures
        reflect_padded(signal, n_fft / 2).len() == stft_padded_len(signal.len(), n_fft),
        framed(reflect_padded(signal, n_fft / 2), n_fft, hop_length).len() == n_fft,
        forall|i: int|
            0 <= i < n_fft ==> #[trigger] framed(reflect_padded(signal, n_fft / 2), n_fft, hop_length)[i].len()
                == stft_frames(signal.len(), n_fft, hop_length),
{
}

/// Each window is centred on its frame's time: the middle sample of frame `f` is sample
/// `f * hop_length` of the signal, for every frame that starts inside the signal.
pub proof fn lemma_stft_window_centred<T>(signal: Seq<T>, n_fft: nat, hop_length: nat, f: int)
    requires
        n_fft >= 1,
        hop_length >= 1,
        signal.len() >= n_fft,
        0 <= f < stft_frames(signal.len(), n_fft, hop_length),
        f * hop_length < signal.len(),
    ensures
        framed(reflect_padded(signal, n_fft / 2), n_fft, hop_length)[(n_fft / 2) as int][f]
            == signal[f * hop_length],
{
    let p = reflect_padded(signal, n_fft / 2);
    assert(f * hop_length >= 0) by (nonlinear_arith)
        requires
            f >= 0,
            hop_length >= 1,
    ;
    assert(p[f * hop_length + n_fft / 2] == signal[f * hop_length]);
}

/// Mel band counts the filter bank supports.
pub open spec fn mel_bands_supported(n: usize) -> bool {
    n == 80 || n == 128
}

/// Why a log-mel spectrogram could not be computed.
#[derive(Debug, Clone, Copy, PartialEq, Eq, Structural)]
pub enum MelError {
    /// The filter bank has no version with this many mel bands.
    UnsupportedMels(usize),
}

/// The number of mel bands asked for (80 by default), refused unless 80 or 128.
pub fn mel_bands(n_mels: Option<usize>) -> (r: Result<usize, MelError>)
    ensures
        ({
            let n = match n_mels {
                Some(n) => n,
                None => N_MELS,
            };
            if mel_bands_supported(n) {
                r == Ok::<usize, MelError>(n)
            } else {
                r == Err::<usize, MelError>(MelError::UnsupportedMels(n))
            }
        }),
{
    let n = match n_mels {
        Some(n) => n,
        None => N_MELS,
    };
    if n == 80 || n == 128 {
        Ok(n)
    } else {
        Err(MelError::UnsupportedMels(n))
    }
}

/// Appends `padding` copies of `zero` to `audio`, as the log-mel front end pads its input.
pub fn pad_audio<T: Copy>(audio: &mut Vec<T>, padding: usize, zero: T)
    requires
        old(audio)@.len() + padding <= usize::MAX,
    ensures
        final(audio)@ == old(audio)@ + crate::audio::repeated(zero, padding as nat),
{
    if padding > 0 {
        let tail = crate::audio::repeat_value(zero, padding);
        crate::audio::extend_from(audio, tail.as_slice());
    }
}

/// The number of spectrogram frames for `n_samples` samples: the transform's frames
/// with the last one dropped.
pub fn log_mel_frames(n_samples: usize) -> (r: usize)
    requires
        n_samples >= N_FFT,
        n_samples + N_FFT <= usize::MAX,
    ensures
        r == stft_frames(n_samples as nat, N_FFT as nat, HOP_LENGTH as nat) - 1,
        r == n_samples / HOP_LENGTH,
{
    let g = stft_geometry(n_samples, N_FFT, HOP_LENGTH);
    g.n_frame - 1
}

} // verus!
