//! Spectral analysis: a fixed-size history of recent samples and band
//! queries over the published frame of magnitude bins.
//!
//! Magnitudes are fixed-point integers: a bin holds a scaled squared
//! magnitude, and band queries return milli-units of a bin magnitude
//! (`AMP_SCALE` milli-units = one bin unit).  The forward FFT itself runs
//! on floating-point hardware outside this crate; the analyzer ingests
//! samples, hands out the window's contents, and publishes the bins the
//! transform produced.

use vstd::arithmetic::div_mod::{
    lemma_div_is_ordered, lemma_div_multiples_vanish, lemma_div_pos_is_pos,
};
use vstd::prelude::*;

verus! {

/// Samples per second the capture stage is configured for.
pub const SAMPLE_RATE: usize = 48000;

/// Samples in one FFT window, and bins in one spectral frame.
pub const FFT_SIZE: usize = 1024;

/// Milli-units per bin magnitude unit: band queries return values scaled
/// by this factor so that per-Hz interpolation loses no precision.
pub const AMP_SCALE: usize = 1000;

/// Index of the bin at or below integer frequency `f`
/// (bin resolution is `SAMPLE_RATE / FFT_SIZE` Hz).
pub open spec fn bin_lo(f: int) -> int {
    f * FFT_SIZE / SAMPLE_RATE as int
}

/// Numerator of the fractional position of `f` between its two
/// bracketing bins, over denominator `SAMPLE_RATE`.
pub open spec fn bin_rem(f: int) -> int {
    (f * FFT_SIZE) % (SAMPLE_RATE as int)
}

/// Index of the bin at or above integer frequency `f`.
pub open spec fn bin_hi(f: int) -> int {
    if bin_rem(f) == 0 {
        bin_lo(f)
    } else {
        bin_lo(f) + 1
    }
}

/// Whether frequency `f` can be interpolated inside `bins`: both
/// bracketing bins exist.
pub open spec fn freq_in_range(bins: Seq<u32>, f: int) -> bool {
    0 <= f && bin_hi(f) < bins.len()
}

/// Amplitude estimate at integer frequency `f` in milli-units: linear
/// interpolation between the two bins bracketing `f`, or 0 past the
/// array bound.
pub open spec fn freq_amp_milli(bins: Seq<u32>, f: int) -> int {
    if freq_in_range(bins, f) {
        (bins[bin_lo(f)] * (SAMPLE_RATE - bin_rem(f)) + bins[bin_hi(f)] * bin_rem(f)) * AMP_SCALE
            / (SAMPLE_RATE as int)
    } else {
        0
    }
}

/// Sum of the interpolated amplitudes at every integer frequency in
/// `[min, max)`, in milli-units.
pub open spec fn amp_sum(bins: Seq<u32>, min: int, max: int) -> int
    decreases max - min,
{
    if min >= max {
        0
    } else {
        freq_amp_milli(bins, min) + amp_sum(bins, min + 1, max)
    }
}

/// Mean interpolated amplitude over all integer frequencies in
/// `[min, max)`, in milli-units; 0 on a degenerate interval.
pub open spec fn band_avg_milli(bins: Seq<u32>, min: int, max: int) -> int {
    if min < max {
        amp_sum(bins, min, max) / (max - min)
    } else {
        0
    }
}

/// Sum of the raw bins in the closed index range `[lo, hi]`.
pub open spec fn bins_sum(bins: Seq<u32>, lo: int, hi: int) -> int
    decreases hi + 1 - lo,
{
    if lo > hi {
        0
    } else {
        bins[lo] + bins_sum(bins, lo + 1, hi)
    }
}

/// The coarse estimator's value: both bounds mapped to bin indices (the
/// high one clamped to the last valid index), then the raw bins in that
/// closed index range averaged — the sum divided by the number of bins
/// summed; 0 when the resolved low index is not strictly below the high
/// one.
pub open spec fn range_avg(bins: Seq<u32>, low: int, high: int) -> int {
    if bins.len() == 0 {
        0
    } else {
        let li = bin_lo(low);
        let hi = if bin_lo(high) < bins.len() - 1 {
            bin_lo(high)
        } else {
            bins.len() - 1
        };
        if li >= hi {
            0
        } else {
            bins_sum(bins, li, hi) / (hi + 1 - li)
        }
    }
}

/// One published spectral frame: scaled squared magnitudes, one bin per
/// `SAMPLE_RATE / FFT_SIZE` Hz step.
pub struct FftResult {
    pub raw_bins: Vec<u32>,
}

impl Default for FftResult {
    /// Before the first transform: no bins, every query yields 0.
    fn default() -> (r: FftResult)
        ensures
            r.raw_bins@.len() == 0,
    {
        FftResult { raw_bins: Vec::new() }
    }
}

impl FftResult {
    pub fn new(raw_bins: Vec<u32>) -> (r: Self)
        ensures
            r.raw_bins == raw_bins,
    {
        Self { raw_bins }
    }

    /// Mean amplitude of the 0-100 Hz band, in milli-units.
    pub fn get_low_frequency_amplitude(&self) -> (r: u64)
        ensures
            r == band_avg_milli(self.raw_bins@, 0, 100),
    {
        let (min_freq, max_freq): (usize, usize) = (0, 100);
        proof {
            lemma_band_amplitude_bounds(self.raw_bins@, 0, 100);
        }
        match self.get_frequency_interval_average_amplitude(&min_freq, &max_freq) {
            Some(v) => v,
            None => 0,
        }
    }

    /// Mean amplitude of the 100-1000 Hz band, in milli-units.
    pub fn get_mid_frequency_amplitude(&self) -> (r: u64)
        ensures
            r == band_avg_milli(self.raw_bins@, 100, 1000),
    {
        let (min_freq, max_freq): (usize, usize) = (100, 1000);
        proof {
            lemma_band_amplitude_bounds(self.raw_bins@, 100, 1000);
        }
        match self.get_frequency_interval_average_amplitude(&min_freq, &max_freq) {
            Some(v) => v,
            None => 0,
        }
    }

    /// Mean amplitude of the 1000-2000 Hz band, in milli-units.
    pub fn get_high_frequency_amplitude(&self) -> (r: u64)
        ensures
            r == band_avg_milli(self.raw_bins@, 1000, 2000),
    {
        let (min_freq, max_freq): (usize, usize) = (1000, 2000);
        proof {
            lemma_band_amplitude_bounds(self.raw_bins@, 1000, 2000);
        }
        match self.get_frequency_interval_average_amplitude(&min_freq, &max_freq) {
            Some(v) => v,
            None => 0,
        }
    }

    /// Mean of the interpolated per-Hz amplitudes over `[min, max)`, in
    /// milli-units.  A degenerate interval (`min >= max`) yields 0
    /// rather than an error, and frequencies past the last bin
    /// contribute 0: band queries are best-effort estimators.
    pub fn get_frequency_interval_average_amplitude(
        &self,
        min_freq: &usize,
        max_freq: &usize,
    ) -> (r: Option<u64>)
        ensures
            r == Some(band_avg_milli(self.raw_bins@, *min_freq as int, *max_freq as int) as u64),
            *min_freq >= *max_freq ==> r == Some(0u64),
    {
        let min: usize = *min_freq;
        let max: usize = *max_freq;
        if min >= max {
            return Some(0);
        }
        let mut total: u128 = 0;
        let mut f: usize = min;
        proof {
            lemma_amp_sum_bounds(self.raw_bins@, min as int, max as int);
        }
        while f < max
            invariant
                min <= f <= max,
                total == amp_sum(self.raw_bins@, min as int, f as int),
                0 <= total <= (f - min) * (u32::MAX as int) * (AMP_SCALE as int),
            decreases max - f,
        {
            let a: u64 = match self.get_frequency_amplitude(&f) {
                Some(v) => v,
                None => 0,
            };
            proof {
                lemma_freq_amp_bounds(self.raw_bins@, f as int);
                lemma_amp_sum_extend(self.raw_bins@, min as int, f as int);
                assert((f + 1 - min) * (u32::MAX as int) * (AMP_SCALE as int) == (f - min) * (
                u32::MAX as int) * (AMP_SCALE as int) + (u32::MAX as int) * (AMP_SCALE as int))
                    by (nonlinear_arith);
            }
            total = total + a as u128;
            f = f + 1;
        }
        let width: u128 = (max - min) as u128;
        let avg: u128 = total / width;
        proof {
            lemma_amp_sum_bounds(self.raw_bins@, min as int, max as int);
            lemma_div_bound(
                total as int,
                width as int,
                (u32::MAX as int) * (AMP_SCALE as int),
            );
        }
        Some(avg as u64)
    }

    /// The coarse estimator: maps both bounds to bin indices (high one
    /// clamped to the last valid index) and averages the raw bins in
    /// that closed index range, with no interpolation.  Returns 0
    /// whenever the resolved low index is not strictly below the
    /// resolved high index, and on an empty frame.
    pub fn get_frequency_interval_average(&self, low: usize, high: usize) -> (r: u64)
        ensures
            r == range_avg(self.raw_bins@, low as int, high as int),
            self.raw_bins@.len() > 0 && bin_lo(low as int) >= (if bin_lo(high as int)
                < self.raw_bins@.len() - 1 {
                bin_lo(high as int)
            } else {
                self.raw_bins@.len() - 1
            }) ==> r == 0,
    {
        if self.raw_bins.len() == 0 {
            return 0;
        }
        proof {
            assert((low as int) * (FFT_SIZE as int) <= (u64::MAX as int) * (FFT_SIZE as int)
                && (high as int) * (FFT_SIZE as int) <= (u64::MAX as int) * (FFT_SIZE as int))
                by (nonlinear_arith)
                requires
                    0 <= low as int <= u64::MAX as int,
                    0 <= high as int <= u64::MAX as int,
            ;
        }
        let low_index128: u128 = (low as u128) * (FFT_SIZE as u128) / (SAMPLE_RATE as u128);
        let high_raw128: u128 = (high as u128) * (FFT_SIZE as u128) / (SAMPLE_RATE as u128);
        let last: u128 = (self.raw_bins.len() - 1) as u128;
        let high_index128: u128 = if high_raw128 < last {
            high_raw128
        } else {
            last
        };
        if low_index128 >= high_index128 {
            return 0;
        }
        let n: usize = self.raw_bins.len();
        let low_index: usize = low_index128 as usize;
        let high_index: usize = high_index128 as usize;
        proof {
            assert(high_index < n);
        }
        let mut sum: u128 = 0;
        let mut i: usize = low_index;
        while i <= high_index
            invariant
                low_index <= i <= high_index + 1,
                high_index < n,
                high_index < self.raw_bins@.len(),
                bins_sum(self.raw_bins@, low_index as int, high_index as int) == sum + bins_sum(
                    self.raw_bins@,
                    i as int,
                    high_index as int,
                ),
                0 <= sum <= (i - low_index) * (u32::MAX as int),
            decreases high_index + 1 - i,
        {
            proof {
                assert(sum + (self.raw_bins@[i as int] as int) <= (u64::MAX as int) * (
                u32::MAX as int) + (u32::MAX as int)) by (nonlinear_arith)
                    requires
                        0 <= sum <= (i - low_index) * (u32::MAX as int),
                        0 <= i - low_index,
                        i - low_index <= u64::MAX as int,
                        self.raw_bins@[i as int] <= u32::MAX,
                ;
            }
            sum = sum + self.raw_bins[i] as u128;
            i = i + 1;
        }
        proof {
            lemma_bins_sum_bounds(self.raw_bins@, low_index as int, high_index as int);
            lemma_div_bound(
                sum as int,
                (high_index + 1 - low_index) as int,
                u32::MAX as int,
            );
        }
        (sum / (high_index + 1 - low_index) as u128) as u64
    }

    /// Interpolated amplitude at one integer frequency, in milli-units:
    /// the two bracketing bins weighted by the frequency's fractional
    /// position between them.  `None` exactly when the upper bracketing
    /// bin does not exist.
    fn get_frequency_amplitude(&self, frequency: &usize) -> (r: Option<u64>)
        ensures
            r is Some <==> freq_in_range(self.raw_bins@, *frequency as int),
            r is Some ==> r == Some(freq_amp_milli(self.raw_bins@, *frequency as int) as u64),
    {
        let f: usize = *frequency;
        proof {
            assert((f as int) * (FFT_SIZE as int) <= (u64::MAX as int) * (FFT_SIZE as int))
                by (nonlinear_arith)
                requires
                    0 <= f as int <= u64::MAX as int,
            ;
        }
        let num: u128 = (f as u128) * (FFT_SIZE as u128);
        let lo128: u128 = num / (SAMPLE_RATE as u128);
        let rem128: u128 = num % (SAMPLE_RATE as u128);
        let hi128: u128 = if rem128 == 0 {
            lo128
        } else {
            lo128 + 1
        };
        if hi128 >= self.raw_bins.len() as u128 {
            return None;
        }
        let lo: usize = lo128 as usize;
        let hi: usize = hi128 as usize;
        let b_lo: u128 = self.raw_bins[lo] as u128;
        let b_hi: u128 = self.raw_bins[hi] as u128;
        let sr: u128 = SAMPLE_RATE as u128;
        proof {
            assert(b_lo * (sr - rem128) <= (u32::MAX as int) * (SAMPLE_RATE as int))
                by (nonlinear_arith)
                requires
                    0 <= b_lo <= u32::MAX as int,
                    0 <= sr - rem128 <= SAMPLE_RATE as int,
            ;
            assert(b_hi * rem128 <= (u32::MAX as int) * (SAMPLE_RATE as int)) by (nonlinear_arith)
                requires
                    0 <= b_hi <= u32::MAX as int,
                    0 <= rem128 <= SAMPLE_RATE as int,
            ;
            assert(0 <= b_lo * (sr - rem128) && 0 <= b_hi * rem128) by (nonlinear_arith)
                requires
                    0 <= b_lo,
                    0 <= b_hi,
                    0 <= sr - rem128,
                    0 <= rem128,
            ;
        }
        let weighted: u128 = b_lo * (sr - rem128) + b_hi * rem128;
        proof {
            assert(b_lo * ((SAMPLE_RATE as int) - rem128) + b_hi * rem128 <= (u32::MAX as int) * (
            SAMPLE_RATE as int)) by (nonlinear_arith)
                requires
                    0 <= b_lo <= u32::MAX,
                    0 <= b_hi <= u32::MAX,
                    0 <= rem128 <= SAMPLE_RATE as int,
            ;
        }
        let amp: u128 = weighted * (AMP_SCALE as u128) / sr;
        proof {
            lemma_div_is_ordered(
                (weighted * (AMP_SCALE as int)) as int,
                (u32::MAX as int) * (SAMPLE_RATE as int) * (AMP_SCALE as int),
                SAMPLE_RATE as int,
            );
            assert(weighted * (AMP_SCALE as int) <= (u32::MAX as int) * (SAMPLE_RATE as int) * (
            AMP_SCALE as int)) by (nonlinear_arith)
                requires
                    0 <= weighted <= (u32::MAX as int) * (SAMPLE_RATE as int),
            ;
            lemma_div_multiples_vanish(
                (u32::MAX as int) * (AMP_SCALE as int),
                SAMPLE_RATE as int,
            );
            assert((u32::MAX as int) * (SAMPLE_RATE as int) * (AMP_SCALE as int) == (u32::MAX as int)
                * (AMP_SCALE as int) * (SAMPLE_RATE as int)) by (nonlinear_arith);
        }
        Some(amp as u64)
    }

    /// The frequency, truncated to an integer Hz count, of the bin at
    /// `index` (a machine limit keeps the product in range; every real
    /// bin index is far below it).
    pub fn get_bin_frequency_at_index(&self, index: &usize) -> (r: usize)
        requires
            *index <= usize::MAX / SAMPLE_RATE,
        ensures
            r == *index * SAMPLE_RATE / FFT_SIZE as int,
    {
        *index * SAMPLE_RATE / FFT_SIZE
    }
}

/// Every interpolated per-Hz amplitude is non-negative and bounded by
/// `u32::MAX * AMP_SCALE` milli-units.
pub proof fn lemma_freq_amp_bounds(bins: Seq<u32>, f: int)
    ensures
        0 <= freq_amp_milli(bins, f) <= (u32::MAX as int) * (AMP_SCALE as int),
{
    if freq_in_range(bins, f) {
        let rem = bin_rem(f);
        let weighted = bins[bin_lo(f)] * (SAMPLE_RATE - rem) + bins[bin_hi(f)] * rem;
        assert(0 <= rem < SAMPLE_RATE as int);
        assert(0 <= weighted <= (u32::MAX as int) * (SAMPLE_RATE as int)) by (nonlinear_arith)
            requires
                0 <= bins[bin_lo(f)] <= u32::MAX,
                0 <= bins[bin_hi(f)] <= u32::MAX,
                0 <= rem < SAMPLE_RATE as int,
                weighted == bins[bin_lo(f)] * (SAMPLE_RATE - rem) + bins[bin_hi(f)] * rem,
        ;
        assert(0 <= weighted * (AMP_SCALE as int)) by (nonlinear_arith)
            requires
                0 <= weighted,
        ;
        lemma_div_is_ordered(
            weighted * (AMP_SCALE as int),
            (u32::MAX as int) * (SAMPLE_RATE as int) * (AMP_SCALE as int),
            SAMPLE_RATE as int,
        );
        assert(weighted * (AMP_SCALE as int) <= (u32::MAX as int) * (SAMPLE_RATE as int) * (
        AMP_SCALE as int)) by (nonlinear_arith)
            requires
                0 <= weighted <= (u32::MAX as int) * (SAMPLE_RATE as int),
        ;
        lemma_div_multiples_vanish((u32::MAX as int) * (AMP_SCALE as int), SAMPLE_RATE as int);
        assert((u32::MAX as int) * (SAMPLE_RATE as int) * (AMP_SCALE as int) == (u32::MAX as int) * (
        AMP_SCALE as int) * (SAMPLE_RATE as int)) by (nonlinear_arith);
        lemma_div_pos_is_pos(weighted * (AMP_SCALE as int), SAMPLE_RATE as int);
    }
}

/// Sum over `[min, max)` of per-Hz amplitudes stays within
/// `(max - min)` times the per-Hz bound.
pub proof fn lemma_amp_sum_bounds(bins: Seq<u32>, min: int, max: int)
    requires
        min <= max,
    ensures
        0 <= amp_sum(bins, min, max) <= (max - min) * (u32::MAX as int) * (AMP_SCALE as int),
    decreases max - min,
{
    if min < max {
        lemma_freq_amp_bounds(bins, min);
        lemma_amp_sum_bounds(bins, min + 1, max);
        assert((max - min) * (u32::MAX as int) * (AMP_SCALE as int) == (max - min - 1) * (
        u32::MAX as int) * (AMP_SCALE as int) + (u32::MAX as int) * (AMP_SCALE as int))
            by (nonlinear_arith);
    }
}

/// Extending the summed interval by one frequency adds that frequency's
/// amplitude.
pub proof fn lemma_amp_sum_extend(bins: Seq<u32>, min: int, mid: int)
    requires
        min <= mid,
    ensures
        amp_sum(bins, min, mid + 1) == amp_sum(bins, min, mid) + freq_amp_milli(bins, mid),
    decreases mid - min,
{
    if min < mid {
        lemma_amp_sum_extend(bins, min + 1, mid);
        assert(amp_sum(bins, min, mid + 1) == freq_amp_milli(bins, min) + amp_sum(
            bins,
            min + 1,
            mid + 1,
        ));
        assert(amp_sum(bins, min, mid) == freq_amp_milli(bins, min) + amp_sum(bins, min + 1, mid));
    } else {
        assert(amp_sum(bins, min, mid + 1) == freq_amp_milli(bins, min) + amp_sum(
            bins,
            min + 1,
            mid + 1,
        ));
        assert(amp_sum(bins, min + 1, mid + 1) == 0);
        assert(amp_sum(bins, min, mid) == 0);
    }
}

/// Sum of a closed bin index range stays within the range's size times
/// the largest bin value.
pub proof fn lemma_bins_sum_bounds(bins: Seq<u32>, lo: int, hi: int)
    requires
        0 <= lo <= hi + 1,
        hi < bins.len(),
    ensures
        0 <= bins_sum(bins, lo, hi) <= (hi + 1 - lo) * (u32::MAX as int),
    decreases hi + 1 - lo,
{
    if lo <= hi {
        lemma_bins_sum_bounds(bins, lo + 1, hi);
        assert((hi + 1 - lo) * (u32::MAX as int) == (hi - lo) * (u32::MAX as int) + (
        u32::MAX as int)) by (nonlinear_arith);
    }
}

/// Dividing a value bounded by `d * m` by `d >= 1` yields at most `m`.
proof fn lemma_div_bound(x: int, d: int, m: int)
    requires
        0 <= x <= d * m,
        1 <= d,
    ensures
        0 <= x / d <= m,
{
    assert(0 <= x / d <= m) by (nonlinear_arith)
        requires
            0 <= x <= d * m,
            1 <= d,
    ;
}

/// Every band amplitude estimate over a valid frequency pair is
/// non-negative and bounded: the mean of interpolated per-Hz amplitudes
/// lies in `[0, u32::MAX * AMP_SCALE]` milli-units, whatever the frame
/// holds.
pub proof fn lemma_band_amplitude_bounds(bins: Seq<u32>, min: int, max: int)
    requires
        0 <= min < max,
    ensures
        0 <= band_avg_milli(bins, min, max) <= (u32::MAX as int) * (AMP_SCALE as int),
{
    lemma_amp_sum_bounds(bins, min, max);
    lemma_div_bound(amp_sum(bins, min, max), max - min, (u32::MAX as int) * (AMP_SCALE as int));
}

/// Fixed-capacity circular history of the most recent window's worth of
/// samples, oldest first.  A sample is a signed fixed-point amplitude;
/// the capture edge chooses the scale.
pub struct HistoryBuffer {
    pub data: Vec<i32>,
}

impl HistoryBuffer {
    /// The buffer always holds exactly one window's worth of samples.
    pub open spec fn wf(&self) -> bool {
        self.data@.len() == FFT_SIZE
    }

    /// A zeroed window: silence until real samples arrive.
    pub fn new() -> (r: Self)
        ensures
            r.wf(),
            forall|i: int| 0 <= i < FFT_SIZE ==> r.data@[i] == 0i32,
    {
        let mut data: Vec<i32> = Vec::new();
        let mut i: usize = 0;
        while i < FFT_SIZE
            invariant
                data@.len() == i,
                i <= FFT_SIZE,
                forall|j: int| 0 <= j < i ==> data@[j] == 0i32,
            decreases FFT_SIZE - i,
        {
            data.push(0);
            i = i + 1;
        }
        HistoryBuffer { data }
    }

    /// Appends one sample, evicting the oldest.
    pub fn push(&mut self, sample: i32)
        requires
            old(self).wf(),
        ensures
            final(self).wf(),
            final(self).data@ == old(self).data@.skip(1).push(sample),
    {
        self.data.remove(0);
        self.data.push(sample);
        proof {
            assert(self.data@ =~= old(self).data@.skip(1).push(sample));
        }
    }

    /// Pushes a batch in arrival order, evicting as many of the oldest
    /// samples: the buffer's size never changes, however many or few
    /// samples a drain yielded.
    pub fn extend(&mut self, samples: &Vec<i32>)
        requires
            old(self).wf(),
        ensures
            final(self).wf(),
            final(self).data@ == (old(self).data@ + samples@).skip(samples@.len() as int),
    {
        let mut i: usize = 0;
        while i < samples.len()
            invariant
                self.wf(),
                i <= samples@.len(),
                self.data@ == (old(self).data@ + samples@.take(i as int)).skip(i as int),
            decreases samples@.len() - i,
        {
            self.push(samples[i]);
            proof {
                assert(self.data@ =~= (old(self).data@ + samples@.take(i + 1)).skip(i + 1));
            }
            i = i + 1;
        }
        proof {
            assert(samples@.take(samples@.len() as int) =~= samples@);
        }
    }
}

/// The producing half of the bounded sample queue: the capture
/// collaborator's handle, moved to the capture thread.  Holds a
/// `ringbuf` producer, which Verus cannot look into.
#[verifier::external_body]
pub struct SampleProducer {
    tx: ringbuf::HeapProd<i32>,
}

/// The consuming half of the bounded sample queue, owned by the
/// analyzer.  Holds a `ringbuf` consumer, which Verus cannot look into.
#[verifier::external_body]
pub struct SampleQueue {
    rx: ringbuf::HeapCons<i32>,
}

/// Relies on ringbuf's `HeapRb::new` and `Split::split`: a bounded
/// single-producer/single-consumer queue of the given capacity, handed
/// out as its two endpoints.  `HeapRb::new` panics on a zero capacity,
/// so that input is excluded.
#[verifier::external_body]
pub fn sample_channel(capacity: usize) -> (r: (SampleProducer, SampleQueue))
    requires
        capacity > 0,
{
    let rb = ringbuf::HeapRb::new(capacity);
    let (tx, rx) = ringbuf::traits::Split::split(rb);
    (SampleProducer { tx }, SampleQueue { rx })
}

impl SampleProducer {
    /// Relies on ringbuf's `Producer::push_slice`: pushes as many
    /// samples as currently fit, in order, and returns how many; the
    /// excess is dropped rather than blocking (never more than offered).
    #[verifier::external_body]
    pub fn push_samples(&mut self, samples: &Vec<i32>) -> (n: usize)
        ensures
            n <= samples@.len(),
    {
        ringbuf::traits::Producer::push_slice(&mut self.tx, samples.as_slice())
    }
}

impl SampleQueue {
    /// Relies on ringbuf's `Consumer::pop_slice`: drains whatever the
    /// capture thread has produced so far, at most `max` samples, in
    /// arrival order, without blocking.  What comes out depends on the
    /// other thread, so only the count is promised.
    #[verifier::external_body]
    fn drain(&mut self, max: usize) -> (r: Vec<i32>)
        ensures
            r@.len() <= max,
    {
        let mut buf = vec![0i32; max];
        let n = ringbuf::traits::Consumer::pop_slice(&mut self.rx, buf.as_mut_slice());
        buf.truncate(n);
        buf
    }
}

/// The analyzer: the queue it drains, the sample history the transform
/// windows over, and the frame it last published.  The control loop is
/// the sole writer and, through the effects it runs, the sole reader, so
/// the published frame is a plain owned value; this type is not
/// thread-safe by design.
pub struct AudioSignalProcessor {
    pub audio_sample_rx: SampleQueue,
    pub history: HistoryBuffer,
    pub fft_result: FftResult,
}

impl AudioSignalProcessor {
    pub open spec fn wf(&self) -> bool {
        self.history.wf()
    }

    /// A zeroed history and an empty frame, as before the first tick,
    /// around the consuming end of the capture queue.
    pub fn new(audio_rx: SampleQueue) -> (r: Self)
        ensures
            r.wf(),
            forall|i: int| 0 <= i < FFT_SIZE ==> r.history.data@[i] == 0i32,
            r.fft_result.raw_bins@.len() == 0,
    {
        AudioSignalProcessor {
            audio_sample_rx: audio_rx,
            history: HistoryBuffer::new(),
            fft_result: FftResult::default(),
        }
    }

    /// Drains as many currently available samples as fit one window
    /// from the capture queue, non-blocking, and pushes them into the
    /// history, oldest first; with no new samples the history is
    /// unchanged.  Returns how many samples arrived.  What the queue
    /// yields depends on the capture thread, so the history is promised
    /// to be the old one shifted by the drained batch, whatever it was.
    pub fn ingest(&mut self) -> (count: usize)
        requires
            old(self).wf(),
        ensures
            final(self).wf(),
            count <= FFT_SIZE,
            count == 0 ==> final(self).history.data@ == old(self).history.data@,
            exists|samples: Seq<i32>|
                samples.len() == count && final(self).history.data@ == (old(self).history.data@
                    + samples).skip(count as int),
            final(self).fft_result == old(self).fft_result,
    {
        let samples = self.audio_sample_rx.drain(FFT_SIZE);
        self.history.extend(&samples);
        proof {
            assert(samples@.len() == 0 ==> (old(self).history.data@ + samples@).skip(0)
                =~= old(self).history.data@);
        }
        samples.len()
    }

    /// Pushes one batch of samples, already drained from the queue,
    /// into the history, oldest first.
    pub fn absorb_samples(&mut self, samples: &Vec<i32>) -> (count: usize)
        requires
            old(self).wf(),
        ensures
            final(self).wf(),
            count == samples@.len(),
            final(self).history.data@ == (old(self).history.data@ + samples@).skip(
                samples@.len() as int,
            ),
            final(self).fft_result == old(self).fft_result,
    {
        self.history.extend(samples);
        samples.len()
    }

    /// The window the transform runs on: the history's contents, oldest
    /// first.
    pub fn window_contents(&self) -> (out: Vec<i32>)
        ensures
            out@ == self.history.data@,
    {
        let mut out: Vec<i32> = Vec::new();
        let mut i: usize = 0;
        while i < self.history.data.len()
            invariant
                i <= self.history.data@.len(),
                out@ == self.history.data@.take(i as int),
            decreases self.history.data@.len() - i,
        {
            out.push(self.history.data[i]);
            proof {
                assert(out@ =~= self.history.data@.take(i + 1));
            }
            i = i + 1;
        }
        proof {
            assert(self.history.data@.take(self.history.data@.len() as int)
                =~= self.history.data@);
        }
        out
    }

    /// Replaces the published frame with freshly transformed bins; the
    /// history is untouched.
    pub fn publish_frame(&mut self, raw_bins: Vec<u32>)
        requires
            old(self).wf(),
        ensures
            final(self).wf(),
            final(self).fft_result.raw_bins == raw_bins,
            final(self).history == old(self).history,
    {
        self.fft_result = FftResult { raw_bins };
    }
}

} // verus!
