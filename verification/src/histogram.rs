//! Histograms: how often each range of normalized sample values occurs.
use crate::color::Color;
use crate::fixed::{ratio_spec, round_div, Fixed, SCALE};
use crate::image::{lemma_vec_len_fits, Image};
use crate::ty::Type;
use vstd::prelude::*;

verus! {

/// The sum of a list of counts.
pub open spec fn sum_of(s: Seq<usize>) -> nat
    decreases s.len(),
{
    if s.len() == 0 {
        0
    } else {
        sum_of(s.drop_last()) + s.last() as nat
    }
}

/// How many counts of a list equal `v`.
pub open spec fn count_of(s: Seq<usize>, v: usize) -> nat
    decreases s.len(),
{
    if s.len() == 0 {
        0
    } else {
        count_of(s.drop_last(), v) + (if s.last() == v {
            1nat
        } else {
            0nat
        })
    }
}

/// The bin, of `nbins` bins, that a normalized value falls into: the unit
/// interval is scaled to `[0, nbins - 1]` and rounded to the nearest bin.
pub open spec fn bin_index(norm: int, nbins: int) -> int {
    round_div(norm * (nbins - 1), SCALE as int)
}

/// The sum of bin `i` over the first `n` histograms of a list.
pub open spec fn bin_total(hs: Seq<Histogram>, i: int, n: int) -> nat
    decreases n,
{
    if n <= 0 {
        0
    } else {
        bin_total(hs, i, n - 1) + hs[n - 1]@[i] as nat
    }
}

/// The sum of all bins of the first `n` histograms of a list.
pub open spec fn grand_total(hs: Seq<Histogram>, n: int) -> nat
    decreases n,
{
    if n <= 0 {
        0
    } else {
        grand_total(hs, n - 1) + sum_of(hs[n - 1]@)
    }
}

/// Whether `i` is the first position of the least count of a list.
pub open spec fn first_min(s: Seq<usize>, i: int) -> bool {
    &&& 0 <= i < s.len()
    &&& forall|k: int| 0 <= k < s.len() ==> s[i] <= #[trigger] s[k]
    &&& forall|k: int| 0 <= k < i ==> s[i] < #[trigger] s[k]
}

/// Whether `i` is the first position of the greatest count of a list.
pub open spec fn first_max(s: Seq<usize>, i: int) -> bool {
    &&& 0 <= i < s.len()
    &&& forall|k: int| 0 <= k < s.len() ==> s[i] >= #[trigger] s[k]
    &&& forall|k: int| 0 <= k < i ==> s[i] > #[trigger] s[k]
}

/// A list of zero counts sums to zero.
pub proof fn lemma_sum_of_zeros(s: Seq<usize>)
    requires
        forall|i: int| 0 <= i < s.len() ==> s[i] == 0,
    ensures
        sum_of(s) == 0,
    decreases s.len(),
{
    if s.len() > 0 {
        lemma_sum_of_zeros(s.drop_last());
    }
}

/// Replacing one count changes the sum by the difference.
pub proof fn lemma_sum_of_update(s: Seq<usize>, i: int, v: usize)
    requires
        0 <= i < s.len(),
    ensures
        sum_of(s.update(i, v)) == sum_of(s) - s[i] + v,
        s[i] <= sum_of(s),
    decreases s.len(),
{
    let t = s.update(i, v);
    if i == s.len() - 1 {
        assert(t.drop_last() == s.drop_last());
    } else {
        assert(t.drop_last() == s.drop_last().update(i, v));
        lemma_sum_of_update(s.drop_last(), i, v);
    }
}

/// The sum of the first `n + 1` counts is the sum of the first `n` and the
/// next one; a prefix sums to no more than the whole list.
pub proof fn lemma_sum_of_prefix(s: Seq<usize>, n: int)
    requires
        0 <= n <= s.len(),
    ensures
        sum_of(s.take(n)) <= sum_of(s),
        n < s.len() ==> sum_of(s.take(n + 1)) == sum_of(s.take(n)) + s[n],
    decreases s.len() - n,
{
    if n < s.len() {
        assert(s.take(n + 1).drop_last() == s.take(n));
        lemma_sum_of_prefix(s, n + 1);
    } else {
        assert(s.take(n) == s);
    }
}

/// One bin summed over some histograms is no more than all their bins
/// together.
pub proof fn lemma_bin_total_bound(hs: Seq<Histogram>, i: int, n: int)
    requires
        0 <= n <= hs.len(),
        0 <= i,
        forall|k: int| 0 <= k < hs.len() ==> i < (#[trigger] hs[k])@.len(),
    ensures
        bin_total(hs, i, n) <= grand_total(hs, n),
    decreases n,
{
    if n > 0 {
        lemma_bin_total_bound(hs, i, n - 1);
        lemma_sum_of_update(hs[n - 1]@, i, 0);
    }
}

/// The sum of all bins grows with the number of histograms.
pub proof fn lemma_grand_total_grows(hs: Seq<Histogram>, n: int, m: int)
    requires
        0 <= n <= m,
    ensures
        grand_total(hs, n) <= grand_total(hs, m),
    decreases m,
{
    if n < m {
        lemma_grand_total_grows(hs, n, m - 1);
    }
}

/// The law of joining two histograms: every bin of the two summed is the sum
/// of the bin of the one and the bin of the other, and all their bins
/// together sum to the sum of the one and the sum of the other.
pub proof fn lemma_join_of_two(h1: Histogram, h2: Histogram, i: int)
    ensures
        bin_total(seq![h1, h2], i, 2) == h1@[i] + h2@[i],
        grand_total(seq![h1, h2], 2) == sum_of(h1@) + sum_of(h2@),
{
    let hs = seq![h1, h2];
    assert(hs[0] == h1 && hs[1] == h2);
    assert(bin_total(hs, i, 0) == 0);
    assert(bin_total(hs, i, 1) == h1@[i]);
    assert(grand_total(hs, 0) == 0);
    assert(grand_total(hs, 1) == sum_of(h1@));
}

/// A sequence of bins with their counts, and the sum of all counts.
#[derive(Debug, Clone, PartialEq)]
pub struct Histogram {
    total: usize,
    bins: Vec<usize>,
}

impl View for Histogram {
    type V = Seq<usize>;

    /// The counts, bin by bin.
    closed spec fn view(&self) -> Seq<usize> {
        self.bins@
    }
}

impl Histogram {
    /// The running total of the histogram.
    pub closed spec fn spec_sum(&self) -> nat {
        self.total as nat
    }

    /// The running total is the sum of the bins.
    pub closed spec fn wf(&self) -> bool {
        self.total == sum_of(self.bins@)
    }

    /// The running total of a well-formed histogram is the sum of its bins.
    pub proof fn lemma_sum_is_sum_of_bins(&self)
        requires
            self.wf(),
        ensures
            self.spec_sum() == sum_of(self@),
    {
    }

    /// A histogram of `nbins` empty bins.
    pub fn new(nbins: usize) -> (h: Histogram)
        ensures
            h.wf(),
            h@.len() == nbins,
            forall|i: int| 0 <= i < nbins ==> h@[i] == 0,
            h.spec_sum() == 0,
    {
        let mut bins: Vec<usize> = Vec::new();
        let mut i: usize = 0;
        while i < nbins
            invariant
                i <= nbins,
                bins@.len() == i,
                forall|k: int| 0 <= k < i ==> bins@[k] == 0,
            decreases nbins - i,
        {
            bins.push(0);
            i += 1;
        }
        proof {
            lemma_sum_of_zeros(bins@);
        }
        Histogram { total: 0, bins }
    }

    /// The histogram whose every bin is the sum of that bin over the given
    /// histograms, which all have the same number of bins.
    pub fn join(h: &[Histogram]) -> (hist: Histogram)
        requires
            h@.len() > 0,
            forall|k: int| 0 <= k < h@.len() ==> (#[trigger] h@[k]).wf(),
            forall|k: int| 0 <= k < h@.len() ==> (#[trigger] h@[k])@.len() == h@[0]@.len(),
            grand_total(h@, h@.len() as int) <= usize::MAX,
        ensures
            hist.wf(),
            hist@.len() == h@[0]@.len(),
            forall|i: int| 0 <= i < hist@.len() ==> hist@[i] == bin_total(h@, i, h@.len() as int),
            hist.spec_sum() == grand_total(h@, h@.len() as int),
    {
        let nbins = h[0].len();
        let mut hist = Histogram::new(nbins);
        let mut k: usize = 0;
        while k < h.len()
            invariant
                k <= h@.len(),
                h@.len() > 0,
                forall|k: int| 0 <= k < h@.len() ==> (#[trigger] h@[k]).wf(),
                forall|k: int| 0 <= k < h@.len() ==> (#[trigger] h@[k])@.len() == nbins,
                grand_total(h@, h@.len() as int) <= usize::MAX,
                hist.bins@.len() == nbins,
                hist.total == sum_of(hist.bins@),
                hist.total == grand_total(h@, k as int),
                forall|i: int| 0 <= i < nbins ==> hist.bins@[i] == bin_total(h@, i, k as int),
            decreases h@.len() - k,
        {
            let item = &h[k];
            let ghost base = hist.total;
            let mut i: usize = 0;
            while i < nbins
                invariant
                    i <= nbins,
                    k < h@.len(),
                    *item == h@[k as int],
                    item.wf(),
                    item.bins@.len() == nbins,
                    forall|k: int| 0 <= k < h@.len() ==> (#[trigger] h@[k])@.len() == nbins,
                    grand_total(h@, h@.len() as int) <= usize::MAX,
                    base == grand_total(h@, k as int),
                    hist.total == base,
                    hist.bins@.len() == nbins,
                    sum_of(hist.bins@) == base + sum_of(item.bins@.take(i as int)),
                    forall|t: int|
                        0 <= t < i ==> hist.bins@[t] == bin_total(h@, t, k + 1),
                    forall|t: int|
                        i <= t < nbins ==> hist.bins@[t] == bin_total(h@, t, k as int),
                decreases nbins - i,
            {
                proof {
                    lemma_sum_of_prefix(item.bins@, i as int);
                    lemma_sum_of_prefix(item.bins@, i + 1);
                    lemma_sum_of_update(hist.bins@, i as int, 0);
                    lemma_bin_total_bound(h@, i as int, k as int);
                    lemma_grand_total_grows(h@, k + 1, h@.len() as int);
                    lemma_sum_of_update(
                        hist.bins@,
                        i as int,
                        (hist.bins@[i as int] + item.bins@[i as int]) as usize,
                    );
                }
                let value = hist.bins[i] + item.bins[i];
                hist.bins.set(i, value);
                i += 1;
            }
            proof {
                assert(item.bins@.take(nbins as int) == item.bins@);
                lemma_grand_total_grows(h@, k + 1, h@.len() as int);
            }
            hist.total = hist.total + item.total;
            k += 1;
        }
        hist
    }

    /// Counts a sample in the bin that its normalized value falls into.
    pub fn add_value<T: Type>(&mut self, value: T)
        requires
            old(self).wf(),
            old(self)@.len() > 0,
            old(self).spec_sum() < usize::MAX,
        ensures
            final(self).wf(),
            0 <= bin_index(value.norm(), old(self)@.len() as int) < old(self)@.len(),
            final(self)@ == old(self)@.update(
                bin_index(value.norm(), old(self)@.len() as int),
                (old(self)@[bin_index(value.norm(), old(self)@.len() as int)] + 1) as usize,
            ),
            final(self).spec_sum() == old(self).spec_sum() + 1,
    {
        let norm = value.to_norm();
        proof {
            T::lemma_norm_is_unit(value);
        }
        let top: u128 = (self.bins.len() - 1) as u128;
        assert(norm.raw * top <= 0x1_0000_0000 * top) by (nonlinear_arith)
            requires
                0 <= norm.raw <= 0x1_0000_0000,
                0 <= top,
        ;
        let p: u128 = (norm.raw as u128) * top;
        let q: u128 = (2 * p + 0x1_0000_0000) / 0x2_0000_0000;
        self.incr_bin(q as usize)
    }

    /// Counts one more in the bin `index`.
    pub fn incr_bin(&mut self, index: usize)
        requires
            old(self).wf(),
            index < old(self)@.len(),
            old(self).spec_sum() < usize::MAX,
        ensures
            final(self).wf(),
            final(self)@ == old(self)@.update(index as int, (old(self)@[index as int] + 1) as usize),
            final(self).spec_sum() == old(self).spec_sum() + 1,
    {
        proof {
            lemma_sum_of_update(self.bins@, index as int, 0);
            lemma_sum_of_update(
                self.bins@,
                index as int,
                (self.bins@[index as int] + 1) as usize,
            );
        }
        let value = self.bins[index] + 1;
        self.bins.set(index, value);
        self.total = self.total + 1;
    }

    /// Sets the count of the bin `index` and adjusts the running total.
    pub fn set_bin(&mut self, index: usize, value: usize)
        requires
            old(self).wf(),
            index < old(self)@.len(),
            old(self).spec_sum() - old(self)@[index as int] + value <= usize::MAX,
        ensures
            final(self).wf(),
            final(self)@ == old(self)@.update(index as int, value),
            final(self).spec_sum() == old(self).spec_sum() - old(self)@[index as int] + value,
    {
        proof {
            lemma_sum_of_update(self.bins@, index as int, value);
        }
        let rest = self.total - self.bins[index];
        self.bins.set(index, value);
        self.total = rest + value;
    }

    /// The count of the bin `index`.
    pub fn bin(&self, index: usize) -> (n: usize)
        requires
            index < self@.len(),
        ensures
            n == self@[index as int],
    {
        self.bins[index]
    }

    /// Every bin with its count, as pairs of position and count.
    pub fn bins(&self) -> (pairs: Vec<(usize, usize)>)
        ensures
            pairs@.len() == self@.len(),
            forall|i: int| 0 <= i < pairs@.len() ==> pairs@[i] == (i as usize, self@[i]),
    {
        let mut pairs: Vec<(usize, usize)> = Vec::new();
        let mut i: usize = 0;
        while i < self.bins.len()
            invariant
                i <= self.bins@.len(),
                pairs@.len() == i,
                forall|k: int| 0 <= k < i ==> pairs@[k] == (k as usize, self.bins@[k]),
            decreases self.bins@.len() - i,
        {
            pairs.push((i, self.bins[i]));
            i += 1;
        }
        pairs
    }

    /// The number of bins.
    pub fn len(&self) -> (n: usize)
        ensures
            n == self@.len(),
    {
        self.bins.len()
    }

    /// Whether the histogram has no bins.
    pub fn is_empty(&self) -> (b: bool)
        ensures
            b == (self@.len() == 0),
    {
        self.len() == 0
    }

    /// The position of the first bin with the least count, or zero for a
    /// histogram without bins.
    pub fn min_index(&self) -> (index: usize)
        ensures
            self@.len() == 0 ==> index == 0,
            self@.len() > 0 ==> first_min(self@, index as int),
    {
        let mut min: usize = usize::MAX;
        let mut index: usize = 0;
        let mut i: usize = 0;
        while i < self.bins.len()
            invariant
                i <= self.bins@.len(),
                i == 0 ==> index == 0 && min == usize::MAX,
                i > 0 ==> index < i && min == self.bins@[index as int],
                forall|k: int| 0 <= k < i ==> min <= self.bins@[k],
                forall|k: int| 0 <= k < index ==> min < self.bins@[k],
            decreases self.bins@.len() - i,
        {
            let n = self.bins[i];
            if n < min || i == 0 {
                min = n;
                index = i;
            }
            i += 1;
        }
        index
    }

    /// The position of the first bin with the greatest count, or zero for a
    /// histogram without bins.
    pub fn max_index(&self) -> (index: usize)
        ensures
            self@.len() == 0 ==> index == 0,
            self@.len() > 0 ==> first_max(self@, index as int),
    {
        let mut max: usize = 0;
        let mut index: usize = 0;
        let mut i: usize = 0;
        while i < self.bins.len()
            invariant
                i <= self.bins@.len(),
                i == 0 ==> index == 0 && max == 0,
                i > 0 ==> index < i && max == self.bins@[index as int],
                forall|k: int| 0 <= k < i ==> max >= self.bins@[k],
                forall|k: int| 0 <= k < index ==> max > self.bins@[k],
            decreases self.bins@.len() - i,
        {
            let n = self.bins[i];
            if n > max {
                max = n;
                index = i;
            }
            i += 1;
        }
        index
    }

    /// The number of bins whose count is `v`.
    pub fn count(&self, v: usize) -> (n: usize)
        ensures
            n == count_of(self@, v),
    {
        let mut n: usize = 0;
        let mut i: usize = 0;
        while i < self.bins.len()
            invariant
                i <= self.bins@.len(),
                n <= i,
                n == count_of(self.bins@.take(i as int), v),
            decreases self.bins@.len() - i,
        {
            proof {
                assert(self.bins@.take(i + 1).drop_last() == self.bins@.take(i as int));
            }
            if self.bins[i] == v {
                n += 1;
            }
            i += 1;
        }
        proof {
            assert(self.bins@.take(self.bins@.len() as int) == self.bins@);
        }
        n
    }

    /// The share of each bin in the sum of all bins. Every share of a
    /// histogram that has counted nothing is zero.
    pub fn distribution(&self) -> (shares: Vec<Fixed>)
        requires
            self.wf(),
        ensures
            shares@.len() == self@.len(),
            forall|i: int|
                0 <= i < shares@.len() ==> (#[trigger] shares@[i])@ == (if self.spec_sum() == 0 {
                    0
                } else {
                    ratio_spec(self@[i] as int, self.spec_sum() as int)
                }),
    {
        let mut shares: Vec<Fixed> = Vec::new();
        let mut i: usize = 0;
        while i < self.bins.len()
            invariant
                i <= self.bins@.len(),
                shares@.len() == i,
                forall|k: int|
                    0 <= k < i ==> (#[trigger] shares@[k])@ == (if self.total == 0 {
                        0
                    } else {
                        ratio_spec(self.bins@[k] as int, self.total as int)
                    }),
            decreases self.bins@.len() - i,
        {
            if self.total == 0 {
                shares.push(Fixed::zero());
            } else {
                shares.push(Fixed::from_ratio(self.bins[i] as u64, self.total as u64));
            }
            i += 1;
        }
        shares
    }

    /// The sum of all bins.
    pub fn sum(&self) -> (n: usize)
        requires
            self.wf(),
        ensures
            n == self.spec_sum(),
            n == sum_of(self@),
    {
        self.total
    }
}

/// The bins after the channel `c` of the first `n` pixels of a buffer of
/// normalized samples has been counted into `nbins` empty bins.
pub open spec fn tally(samples: Seq<int>, channels: int, c: int, nbins: int, n: int) -> Seq<usize>
    decreases n,
{
    if n <= 0 {
        Seq::new(nbins as nat, |i: int| 0usize)
    } else {
        let prev = tally(samples, channels, c, nbins, n - 1);
        let b = bin_index(samples[(n - 1) * channels + c], nbins);
        prev.update(b, (prev[b] + 1) as usize)
    }
}

impl<T: Type, C: Color> Image<T, C> {
    /// One histogram of `nbins` bins for each channel, over all pixels.
    pub fn histogram(&self, nbins: usize) -> (hists: Vec<Histogram>)
        requires
            self.wf(),
            nbins > 0,
        ensures
            hists@.len() == C::spec_channels(),
            forall|c: int|
                0 <= c < hists@.len() ==> {
                    &&& (#[trigger] hists@[c]).wf()
                    &&& hists@[c]@ == tally(
                        self@.samples,
                        C::spec_channels() as int,
                        c,
                        nbins as int,
                        self.width * self.height,
                    )
                    &&& hists@[c].spec_sum() == self.width * self.height
                },
    {
        let channels = C::channels();
        proof {
            C::lemma_channels();
            lemma_vec_len_fits(&self.data);
            assert(self.width * self.height <= self.width * self.height * channels)
                by (nonlinear_arith)
                requires
                    self.width * self.height >= 0,
                    channels >= 1,
            ;
        }
        let pixels: usize = self.width * self.height;
        let ghost samples = self@.samples;
        let mut hists: Vec<Histogram> = Vec::new();
        let mut c: usize = 0;
        while c < channels
            invariant
                c <= channels,
                channels == C::spec_channels(),
                1 <= channels <= 4,
                nbins > 0,
                pixels == self.width * self.height,
                self.data@.len() == pixels * channels,
                self.data@.len() <= usize::MAX,
                samples == self@.samples,
                hists@.len() == c,
                forall|k: int|
                    0 <= k < c ==> {
                        &&& (#[trigger] hists@[k]).wf()
                        &&& hists@[k]@ == tally(
                            samples,
                            channels as int,
                            k,
                            nbins as int,
                            pixels as int,
                        )
                        &&& hists@[k].spec_sum() == pixels
                    },
            decreases channels - c,
        {
            let mut h = Histogram::new(nbins);
            assert(h@ =~= tally(samples, channels as int, c as int, nbins as int, 0));
            let mut p: usize = 0;
            while p < pixels
                invariant
                    p <= pixels,
                    c < channels,
                    channels == C::spec_channels(),
                    nbins > 0,
                    self.data@.len() == pixels * channels,
                    self.data@.len() <= usize::MAX,
                    samples == self@.samples,
                    h.wf(),
                    h@.len() == nbins,
                    h@ == tally(samples, channels as int, c as int, nbins as int, p as int),
                    h.spec_sum() == p,
                decreases pixels - p,
            {
                assert(0 <= p * channels && p * channels + channels <= pixels * channels)
                    by (nonlinear_arith)
                    requires
                        0 <= p < pixels,
                        0 < channels,
                ;
                let v = self.data[p * channels + c];
                assert(samples[p * channels + c] == v.norm());
                h.add_value(v);
                p += 1;
            }
            hists.push(h);
            c += 1;
        }
        hists
    }
}

} // verus!
