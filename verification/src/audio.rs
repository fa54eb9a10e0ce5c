use vstd::prelude::*;

verus! {

/// Which end of a buffer padding or trimming applies to.
#[derive(Debug, Clone, Copy, PartialEq, Eq, Structural)]
pub enum PadSide {
    /// The start of the buffer.
    Left,
    /// Both ends, the end getting the larger half.
    Both,
    /// The end of the buffer.
    Right,
}

/// Why an operation on an [`AudioBuffer`] was refused.
#[derive(Debug, Clone, Copy, PartialEq, Eq, Structural)]
pub enum AudioError {
    /// Padding was asked for, but the buffer already has at least the target size.
    AlreadyAtLeastTarget,
    /// Trimming was asked for, but the buffer already has at most the target size.
    AlreadyAtMostTarget,
    /// Two buffers with different sample rates were to be joined.
    SampleRateMismatch { own: u32, other: u32 },
}

/// Mono audio: samples at a sample rate in hertz.
pub struct AudioBuffer<S> {
    pub samples: Vec<S>,
    pub sample_rate: u32,
}

/// `n` copies of `v`.
pub open spec fn repeated<S>(v: S, n: nat) -> Seq<S> {
    Seq::new(n, |_i: int| v)
}

/// `s` padded with `v` up to length `target` on `side`; the right side gets the larger
/// half when padding both sides.
pub open spec fn padded<S>(s: Seq<S>, target: nat, v: S, side: PadSide) -> Seq<S> {
    let amount = (target - s.len()) as nat;
    match side {
        PadSide::Left => repeated(v, amount) + s,
        PadSide::Right => s + repeated(v, amount),
        PadSide::Both => repeated(v, amount / 2) + s + repeated(v, (amount - amount / 2) as nat),
    }
}

/// `s` cut down to length `target` on `side`; the end loses the larger half when
/// trimming both sides.
pub open spec fn trimmed<S>(s: Seq<S>, target: nat, side: PadSide) -> Seq<S> {
    let amount = s.len() - target;
    match side {
        PadSide::Left => s.subrange(amount, s.len() as int),
        PadSide::Right => s.subrange(0, target as int),
        PadSide::Both => s.subrange(amount / 2, amount / 2 + target),
    }
}

/// `n` copies of `v`.
pub fn repeat_value<S: Copy>(v: S, n: usize) -> (r: Vec<S>)
    ensures
        r@ == repeated(v, n as nat),
{
    let mut out: Vec<S> = Vec::new();
    let mut i: usize = 0;
    while i < n
        invariant
            i <= n,
            out@ == repeated(v, i as nat),
        decreases n - i,
    {
        out.push(v);
        i = i + 1;
        assert(out@ =~= repeated(v, i as nat));
    }
    out
}

/// Appends a copy of each element of `src` to `dst`.
pub fn extend_from<S: Copy>(dst: &mut Vec<S>, src: &[S])
    ensures
        final(dst)@ == old(dst)@ + src@,
{
    let mut i: usize = 0;
    while i < src.len()
        invariant
            i <= src.len(),
            dst@ == old(dst)@ + src@.take(i as int),
        decreases src.len() - i,
    {
        dst.push(src[i]);
        i = i + 1;
        assert(dst@ =~= old(dst)@ + src@.take(i as int));
    }
    assert(src@.take(src.len() as int) =~= src@);
}

/// A copy of `s[start..end]`.
pub fn copy_range<S: Copy>(s: &[S], start: usize, end: usize) -> (r: Vec<S>)
    requires
        start <= end <= s.len(),
    ensures
        r@ == s@.subrange(start as int, end as int),
{
    let mut out: Vec<S> = Vec::new();
    let mut i: usize = start;
    while i < end
        invariant
            start <= i <= end,
            end <= s.len(),
            out@ == s@.subrange(start as int, i as int),
        decreases end - i,
    {
        out.push(s[i]);
        i = i + 1;
        assert(out@ =~= s@.subrange(start as int, i as int));
    }
    out
}

impl<S: Copy> AudioBuffer<S> {
    /// A buffer holding `samples` at `sample_rate`.
    pub fn new(samples: Vec<S>, sample_rate: u32) -> (r: Self)
        ensures
            r.samples@ == samples@,
            r.sample_rate == sample_rate,
    {
        AudioBuffer { samples, sample_rate }
    }

    /// A buffer without samples at `sample_rate`.
    pub fn empty(sample_rate: u32) -> (r: Self)
        ensures
            r.samples@.len() == 0,
            r.sample_rate == sample_rate,
    {
        AudioBuffer { samples: Vec::new(), sample_rate }
    }

    /// Whether the buffer has no samples.
    pub fn is_empty(&self) -> (r: bool)
        ensures
            r == (self.samples@.len() == 0),
    {
        self.samples.len() == 0
    }

    /// Pads the samples with `target_value` up to `target_size` on `axis`; refused when
    /// the buffer already has at least `target_size` samples.
    pub fn pad(&mut self, target_size: usize, target_value: S, axis: PadSide) -> (r: Result<(), AudioError>)
        ensures
            final(self).sample_rate == old(self).sample_rate,
            old(self).samples@.len() >= target_size ==> r == Err::<(), AudioError>(
                AudioError::AlreadyAtLeastTarget,
            ) && final(self).samples@ == old(self).samples@,
            old(self).samples@.len() < target_size ==> r is Ok && final(self).samples@ == padded(
                old(self).samples@,
                target_size as nat,
                target_value,
                axis,
            ),
    {
        let current_length = self.samples.len();
        if current_length >= target_size {
            return Err(AudioError::AlreadyAtLeastTarget);
        }
        let pad_amount = target_size - current_length;
        match axis {
            PadSide::Left => {
                let mut new_samples = repeat_value(target_value, pad_amount);
                extend_from(&mut new_samples, self.samples.as_slice());
                self.samples = new_samples;
            },
            PadSide::Right => {
                let tail = repeat_value(target_value, pad_amount);
                extend_from(&mut self.samples, tail.as_slice());
            },
            PadSide::Both => {
                let left_pad = pad_amount / 2;
                let right_pad = pad_amount - left_pad;
                let mut new_samples = repeat_value(target_value, left_pad);
                extend_from(&mut new_samples, self.samples.as_slice());
                let tail = repeat_value(target_value, right_pad);
                extend_from(&mut new_samples, tail.as_slice());
                self.samples = new_samples;
            },
        }
        Ok(())
    }

    /// Cuts the samples down to `target_size` on `axis`; refused when the buffer already
    /// has at most `target_size` samples.
    pub fn trim(&mut self, target_size: usize, axis: PadSide) -> (r: Result<(), AudioError>)
        ensures
            final(self).sample_rate == old(self).sample_rate,
            old(self).samples@.len() <= target_size ==> r == Err::<(), AudioError>(
                AudioError::AlreadyAtMostTarget,
            ) && final(self).samples@ == old(self).samples@,
            old(self).samples@.len() > target_size ==> r is Ok && final(self).samples@ == trimmed(
                old(self).samples@,
                target_size as nat,
                axis,
            ),
    {
        let current_length = self.samples.len();
        if current_length <= target_size {
            return Err(AudioError::AlreadyAtMostTarget);
        }
        let trim_amount = current_length - target_size;
        match axis {
            PadSide::Left => {
                self.samples = copy_range(self.samples.as_slice(), trim_amount, current_length);
            },
            PadSide::Right => {
                self.samples.truncate(target_size);
            },
            PadSide::Both => {
                let left_trim = trim_amount / 2;
                self.samples = copy_range(self.samples.as_slice(), left_trim, left_trim + target_size);
            },
        }
        Ok(())
    }

    /// Appends the samples of `other`; refused when the sample rates differ.
    pub fn append(&mut self, other: &AudioBuffer<S>) -> (r: Result<(), AudioError>)
        ensures
            final(self).sample_rate == old(self).sample_rate,
            old(self).sample_rate != other.sample_rate ==> r == Err::<(), AudioError>(
                AudioError::SampleRateMismatch { own: old(self).sample_rate, other: other.sample_rate },
            ) && final(self).samples@ == old(self).samples@,
            old(self).sample_rate == other.sample_rate ==> r is Ok && final(self).samples@ == old(
                self,
            ).samples@ + other.samples@,
    {
        if self.sample_rate != other.sample_rate {
            return Err(AudioError::SampleRateMismatch { own: self.sample_rate, other: other.sample_rate });
        }
        extend_from(&mut self.samples, other.samples.as_slice());
        Ok(())
    }
}

/// Padding a buffer to a size and trimming it back on the same side gives back the
/// samples it started with, whatever the pad value.
pub proof fn lemma_trim_undoes_pad<S>(s: Seq<S>, target: nat, v: S, side: PadSide)
    requires
        s.len() < target,
    ensures
        padded(s, target, v, side).len() == target,
        trimmed(padded(s, target, v, side), s.len(), side) == s,
{
    let p = padded(s, target, v, side);
    assert(trimmed(p, s.len(), side) =~= s);
}

/// Padding gives exactly the target length, and trimming too.
pub proof fn lemma_pad_trim_lengths<S>(s: Seq<S>, target: nat, v: S, side: PadSide)
    ensures
        s.len() < target ==> padded(s, target, v, side).len() == target,
        s.len() > target ==> trimmed(s, target, side).len() == target,
{
}

/// Padding puts `target - len` copies of the value before the samples (left), after them
/// (right), or half of them, rounded down, before and the rest after (both sides); with
/// an even amount both sides get the same number.
pub proof fn lemma_pad_layout<S>(s: Seq<S>, target: nat, v: S, side: PadSide)
    requires
        s.len() < target,
    ensures
        ({
            let p = padded(s, target, v, side);
            let amount: int = target - s.len();
            let before: int = match side {
                PadSide::Left => amount,
                PadSide::Right => 0,
                PadSide::Both => amount / 2,
            };
            &&& p.len() == target
            &&& forall|i: int| 0 <= i < before ==> #[trigger] p[i] == v
            &&& forall|j: int| 0 <= j < s.len() ==> p[before + j] == #[trigger] s[j]
            &&& forall|i: int| before + s.len() <= i < target ==> #[trigger] p[i] == v
            &&& (side == PadSide::Both ==> before + before == amount || before + before + 1 == amount)
        }),
{
    let p = padded(s, target, v, side);
    let amount: int = target - s.len();
    let before: int = match side {
        PadSide::Left => amount,
        PadSide::Right => 0,
        PadSide::Both => amount / 2,
    };
    assert forall|j: int| 0 <= j < s.len() implies p[before + j] == #[trigger] s[j] by {}
}

/// Trimming keeps `target` consecutive samples: the last ones (left), the first ones
/// (right), or those after half the excess, rounded down (both sides).
pub proof fn lemma_trim_layout<S>(s: Seq<S>, target: nat, side: PadSide)
    requires
        target < s.len(),
    ensures
        ({
            let t = trimmed(s, target, side);
            let amount: int = s.len() - target;
            let skipped: int = match side {
                PadSide::Left => amount,
                PadSide::Right => 0,
                PadSide::Both => amount / 2,
            };
            &&& t.len() == target
            &&& forall|j: int| 0 <= j < target ==> #[trigger] t[j] == s[skipped + j]
        }),
{
}

} // verus!
