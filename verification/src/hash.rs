//! Fingerprints of images: a digest of 64 bits, one for each cell of a grid
//! of eight by eight cells laid over the image, and the distance between two
//! digests.
use crate::color::Color;
use crate::diff::{coordinates, lemma_coordinates};
use crate::filter::{Filter, Invert};
use crate::fixed::{clamp_unit, SCALE};
use crate::image::{lemma_vec_len_fits, offset, Image, Plane};
use crate::ty::Type;
use vstd::arithmetic::power2::{lemma2_to64, lemma2_to64_rest, lemma_pow2_unfold, pow2};
use vstd::prelude::*;

verus! {

/// Where cell `i` of eight begins along an axis of `n` samples. Cell `i` ends
/// where cell `i + 1` begins.
pub open spec fn cell_start(n: int, i: int) -> int {
    (i * n) / 8
}

/// The sum of the numbers at the positions `lo` up to `hi` of a list.
pub open spec fn range_sum(s: Seq<int>, lo: int, hi: int) -> int
    decreases hi - lo,
{
    if hi <= lo {
        0
    } else {
        range_sum(s, lo, hi - 1) + s[hi - 1]
    }
}

/// The sum of all normalized samples of the pixels with `x0 <= x < x1` in the
/// `rows` rows from row `y0` on.
pub open spec fn block_sum(plane: Plane, x0: int, x1: int, y0: int, rows: int) -> int
    decreases rows,
{
    if rows <= 0 {
        0
    } else {
        let y = y0 + rows - 1;
        block_sum(plane, x0, x1, y0, rows - 1) + range_sum(
            plane.samples,
            offset(plane.width as int, plane.channels as int, x0, y, 0),
            offset(plane.width as int, plane.channels as int, x1, y, 0),
        )
    }
}

/// The sum of all normalized samples in cell `k`, the cells counted row by
/// row.
pub open spec fn cell_sum(plane: Plane, k: int) -> int {
    block_sum(
        plane,
        cell_start(plane.width as int, k % 8),
        cell_start(plane.width as int, k % 8 + 1),
        cell_start(plane.height as int, k / 8),
        cell_start(plane.height as int, k / 8 + 1) - cell_start(plane.height as int, k / 8),
    )
}

/// The number of samples in cell `k`.
pub open spec fn cell_count(plane: Plane, k: int) -> int {
    (cell_start(plane.width as int, k % 8 + 1) - cell_start(plane.width as int, k % 8)) * (
    cell_start(plane.height as int, k / 8 + 1) - cell_start(plane.height as int, k / 8))
        * plane.channels
}

/// Bit `k` of the digest: whether the mean of the samples in cell `k` is
/// above one half. The bit of a cell without samples is not set.
pub open spec fn cell_bit(plane: Plane, k: int) -> bool {
    2 * cell_sum(plane, k) > cell_count(plane, k) * SCALE
}

/// The number whose binary digits are the first `n` of the given bits, the
/// first bit counting least.
pub open spec fn digest_of(bits: spec_fn(int) -> bool, n: int) -> int
    decreases n,
{
    if n <= 0 {
        0
    } else {
        digest_of(bits, n - 1) + (if bits(n - 1) {
            pow2((n - 1) as nat) as int
        } else {
            0
        })
    }
}

/// The bits of the digest of an image.
pub open spec fn cell_bits(plane: Plane) -> spec_fn(int) -> bool {
    |k: int| cell_bit(plane, k)
}

/// The digest of an image.
pub open spec fn spec_hash(plane: Plane) -> int {
    digest_of(cell_bits(plane), 64)
}

/// The number of the lowest `n` binary digits in which `a` and `b` differ.
pub open spec fn hamming(a: int, b: int, n: int) -> int
    decreases n,
{
    if n <= 0 {
        0
    } else {
        (if a % 2 != b % 2 {
            1int
        } else {
            0int
        }) + hamming(a / 2, b / 2, n - 1)
    }
}

/// Whether every sample of `b` is the complement of the sample of `a` at the
/// same place: the sample nearest to one minus the normalized sample.
pub open spec fn is_inverse<T: Type, C: Color>(b: &Image<T, C>, a: &Image<T, C>) -> bool {
    &&& b.same_shape(a)
    &&& b.data@.len() == a.data@.len()
    &&& forall|i: int|
        0 <= i < a.data@.len() ==> #[trigger] b.data@[i] == T::denorm(SCALE - a.data@[i].norm())
}

/// A digest of `n` bits is less than two to the power `n`.
pub proof fn lemma_digest_bound(bits: spec_fn(int) -> bool, n: int)
    requires
        0 <= n,
    ensures
        0 <= digest_of(bits, n) < pow2(n as nat),
    decreases n,
{
    if n > 0 {
        lemma_digest_bound(bits, n - 1);
        lemma_pow2_unfold(n as nat);
    } else {
        lemma2_to64();
    }
}

/// Two digests of `n` bits are equal only where all their bits are.
pub proof fn lemma_digest_injective(a: spec_fn(int) -> bool, b: spec_fn(int) -> bool, n: int, k: int)
    requires
        0 <= k < n,
        a(k) != b(k),
    ensures
        digest_of(a, n) != digest_of(b, n),
    decreases n,
{
    lemma_digest_bound(a, n - 1);
    lemma_digest_bound(b, n - 1);
    if k < n - 1 {
        lemma_digest_injective(a, b, n - 1, k);
    }
}

/// Two numbers below two to the power `n` that differ in none of their lowest
/// `n` binary digits are equal, and equal numbers differ in none.
pub proof fn lemma_hamming_zero(a: int, b: int, n: int)
    requires
        0 <= n,
        0 <= a < pow2(n as nat),
        0 <= b < pow2(n as nat),
    ensures
        hamming(a, b, n) >= 0,
        (hamming(a, b, n) == 0) == (a == b),
    decreases n,
{
    if n > 0 {
        lemma_pow2_unfold(n as nat);
        lemma_hamming_zero(a / 2, b / 2, n - 1);
    } else {
        lemma2_to64();
    }
}

/// The sum of a range of a list of unit values lies between zero and the
/// length of the range, and taking one more position adds the number there.
pub proof fn lemma_range_sum_bound(s: Seq<int>, lo: int, hi: int)
    requires
        0 <= lo <= hi <= s.len(),
        forall|i: int| 0 <= i < s.len() ==> 0 <= #[trigger] s[i] <= SCALE,
    ensures
        0 <= range_sum(s, lo, hi) <= (hi - lo) * SCALE,
    decreases hi - lo,
{
    if lo < hi {
        lemma_range_sum_bound(s, lo, hi - 1);
    }
}

/// Where every number of one list is the complement of the number of another
/// at the same place, so is the sum of a range, counted by its length.
pub proof fn lemma_range_sum_complement(s: Seq<int>, t: Seq<int>, lo: int, hi: int)
    requires
        0 <= lo <= hi <= s.len(),
        s.len() == t.len(),
        forall|i: int| 0 <= i < s.len() ==> #[trigger] t[i] == SCALE - s[i],
    ensures
        range_sum(t, lo, hi) == (hi - lo) * SCALE - range_sum(s, lo, hi),
    decreases hi - lo,
{
    if lo < hi {
        lemma_range_sum_complement(s, t, lo, hi - 1);
    }
}

/// The ends of the rows of a block lie inside the buffer, in order.
pub proof fn lemma_block_row(width: int, height: int, channels: int, x0: int, x1: int, y: int)
    requires
        0 <= x0 <= x1 <= width,
        0 <= y < height,
        0 < channels,
    ensures
        0 <= offset(width, channels, x0, y, 0) <= offset(width, channels, x1, y, 0) <= width
            * height * channels,
        offset(width, channels, x1, y, 0) - offset(width, channels, x0, y, 0) == (x1 - x0)
            * channels,
{
    assert(0 <= y * width && y * width + width <= width * height) by (nonlinear_arith)
        requires
            0 <= y < height,
            0 <= width,
    ;
    let left = y * width + x0;
    let right = y * width + x1;
    let n = width * height;
    assert(0 <= left * channels <= right * channels <= n * channels && right * channels - left * channels
        == (x1 - x0) * channels) by (nonlinear_arith)
        requires
            0 <= left <= right <= n,
            right - left == x1 - x0,
            0 < channels,
    ;
}

/// The sum over a block of unit values lies between zero and the number of
/// its samples.
pub proof fn lemma_block_sum_bound(plane: Plane, x0: int, x1: int, y0: int, rows: int)
    requires
        plane.wf(),
        plane.channels > 0,
        0 <= x0 <= x1 <= plane.width,
        0 <= y0,
        0 <= rows,
        y0 + rows <= plane.height,
    ensures
        0 <= block_sum(plane, x0, x1, y0, rows) <= rows * ((x1 - x0) * plane.channels) * SCALE,
    decreases rows,
{
    if rows > 0 {
        let y = y0 + rows - 1;
        let len = (x1 - x0) * plane.channels;
        lemma_block_sum_bound(plane, x0, x1, y0, rows - 1);
        lemma_block_row(
            plane.width as int,
            plane.height as int,
            plane.channels as int,
            x0,
            x1,
            y,
        );
        lemma_range_sum_bound(
            plane.samples,
            offset(plane.width as int, plane.channels as int, x0, y, 0),
            offset(plane.width as int, plane.channels as int, x1, y, 0),
        );
        assert(rows * len * SCALE == (rows - 1) * len * SCALE + len * SCALE) by (nonlinear_arith);
    } else {
        assert(rows * ((x1 - x0) * plane.channels) * SCALE == 0) by (nonlinear_arith)
            requires
                rows == 0,
        ;
    }
}

/// Where every sample of one image is the complement of the sample of
/// another at the same place, so is the sum over a block, counted by the
/// number of its samples.
pub proof fn lemma_block_sum_complement(a: Plane, b: Plane, x0: int, x1: int, y0: int, rows: int)
    requires
        a.wf(),
        a.channels > 0,
        b.width == a.width,
        b.height == a.height,
        b.channels == a.channels,
        b.samples.len() == a.samples.len(),
        forall|i: int| 0 <= i < a.samples.len() ==> #[trigger] b.samples[i] == SCALE - a.samples[i],
        0 <= x0 <= x1 <= a.width,
        0 <= y0,
        0 <= rows,
        y0 + rows <= a.height,
    ensures
        block_sum(b, x0, x1, y0, rows) == rows * ((x1 - x0) * a.channels) * SCALE - block_sum(
            a,
            x0,
            x1,
            y0,
            rows,
        ),
    decreases rows,
{
    let len = (x1 - x0) * a.channels;
    if rows > 0 {
        let y = y0 + rows - 1;
        lemma_block_sum_complement(a, b, x0, x1, y0, rows - 1);
        lemma_block_row(a.width as int, a.height as int, a.channels as int, x0, x1, y);
        lemma_range_sum_complement(
            a.samples,
            b.samples,
            offset(a.width as int, a.channels as int, x0, y, 0),
            offset(a.width as int, a.channels as int, x1, y, 0),
        );
        assert(rows * len * SCALE == (rows - 1) * len * SCALE + len * SCALE) by (nonlinear_arith);
    } else {
        assert(rows * len * SCALE == 0) by (nonlinear_arith)
            requires
                rows == 0,
        ;
    }
}

/// The cells of an axis follow each other from its start to its end.
pub proof fn lemma_cell_start(n: int, i: int)
    requires
        0 <= n,
        0 <= i < 8,
    ensures
        0 <= cell_start(n, i) <= cell_start(n, i + 1) <= n,
        cell_start(n, 0) == 0,
        cell_start(n, 8) == n,
{
    assert(0 <= i * n <= (i + 1) * n <= 8 * n) by (nonlinear_arith)
        requires
            0 <= n,
            0 <= i < 8,
    ;
    assert(0 * n == 0);
}

/// A fingerprint of the content of an image.
#[derive(Clone, Copy, Debug, PartialEq, Eq, Structural)]
pub struct Hash {
    /// The 64 bits of the fingerprint, the bit of the first cell counting
    /// least.
    pub digest: u64,
}

impl Hash {
    /// The number of bits in which the two digests differ. It is zero
    /// exactly where the digests are equal.
    pub fn diff(&self, other: &Hash) -> (d: u32)
        ensures
            d == hamming(self.digest as int, other.digest as int, 64),
            d <= 64,
            (d == 0) == (self.digest == other.digest),
    {
        let mut a: u64 = self.digest;
        let mut b: u64 = other.digest;
        let mut d: u32 = 0;
        let mut t: u32 = 0;
        while t < 64
            invariant
                t <= 64,
                d <= t,
                d + hamming(a as int, b as int, 64 - t) == hamming(
                    self.digest as int,
                    other.digest as int,
                    64,
                ),
            decreases 64 - t,
        {
            if a % 2 != b % 2 {
                d += 1;
            }
            a = a / 2;
            b = b / 2;
            t += 1;
        }
        proof {
            lemma2_to64();
            lemma2_to64_rest();
            lemma_hamming_zero(self.digest as int, other.digest as int, 64);
        }
        d
    }
}

/// Where cell `i` of eight begins along an axis of `n` samples.
fn cell_edge(n: usize, i: usize) -> (r: usize)
    requires
        i <= 8,
    ensures
        r == cell_start(n as int, i as int),
        r <= n,
{
    assert(0 <= i * n <= 8 * n) by (nonlinear_arith)
        requires
            0 <= n,
            0 <= i <= 8,
    ;
    let p: u128 = (i as u128) * (n as u128);
    (p / 8) as usize
}

impl<T: Type, C: Color> Image<T, C> {
    /// The sum of the normalized samples of the pixels with `x0 <= x < x1`
    /// and `y0 <= y < y1`.
    fn block_total(&self, x0: usize, x1: usize, y0: usize, y1: usize) -> (sum: u128)
        requires
            self.wf(),
            x0 <= x1 <= self.width,
            y0 <= y1 <= self.height,
        ensures
            sum == block_sum(self@, x0 as int, x1 as int, y0 as int, y1 - y0),
            sum <= (y1 - y0) * ((x1 - x0) * C::spec_channels()) * SCALE,
    {
        let channels = C::channels();
        let width = self.width;
        let ghost plane = self@;
        let ghost len = (x1 - x0) * channels;
        proof {
            C::lemma_channels();
            self.lemma_view_wf();
            lemma_vec_len_fits(&self.data);
        }
        let mut sum: u128 = 0;
        let mut y: usize = y0;
        while y < y1
            invariant
                y0 <= y <= y1 <= self.height,
                x0 <= x1 <= self.width,
                width == self.width,
                self.wf(),
                plane == self@,
                plane.wf(),
                channels == C::spec_channels(),
                channels > 0,
                len == (x1 - x0) * channels,
                self.data@.len() <= usize::MAX,
                sum == block_sum(plane, x0 as int, x1 as int, y0 as int, y - y0),
            decreases y1 - y,
        {
            proof {
                lemma_block_row(
                    width as int,
                    self.height as int,
                    channels as int,
                    x0 as int,
                    x1 as int,
                    y as int,
                );
                lemma_block_sum_bound(plane, x0 as int, x1 as int, y0 as int, y - y0);
                lemma_block_sum_bound(plane, x0 as int, x1 as int, y0 as int, y + 1 - y0);
                let left = y * width + x0;
                let right = y * width + x1;
                assert(0 <= left <= left * channels && 0 <= right <= right * channels) by (nonlinear_arith)
                    requires
                        left == y * width + x0,
                        right == y * width + x1,
                        0 <= y,
                        0 <= width,
                        0 <= x0,
                        0 <= x1,
                        0 < channels,
                ;
                assert(0 <= len <= width * channels) by (nonlinear_arith)
                    requires
                        len == (x1 - x0) * channels,
                        0 <= x1 - x0 <= width,
                        0 < channels,
                ;
                assert((y + 1 - y0) * len <= self.height * (width * channels)) by (nonlinear_arith)
                    requires
                        0 <= y + 1 - y0 <= self.height,
                        0 <= len <= width * channels,
                ;
                assert(self.height * (width * channels) == width * self.height * channels)
                    by (nonlinear_arith);
                assert((y + 1 - y0) * len * SCALE <= usize::MAX * SCALE) by (nonlinear_arith)
                    requires
                        (y + 1 - y0) * len <= usize::MAX,
                ;
                assert((y + 1 - y0) * len * SCALE == (y - y0) * len * SCALE + len * SCALE)
                    by (nonlinear_arith);
            }
            let lo: usize = (y * width + x0) * channels;
            let hi: usize = (y * width + x1) * channels;
            let ghost base = sum;
            let mut t: usize = lo;
            while t < hi
                invariant
                    lo <= t <= hi <= self.data@.len(),
                    plane == self@,
                    plane.wf(),
                    sum == base + range_sum(plane.samples, lo as int, t as int),
                    0 <= range_sum(plane.samples, lo as int, t as int) <= (t - lo) * SCALE,
                    base + (hi - lo) * SCALE <= usize::MAX * SCALE,
                decreases hi - t,
            {
                let f = self.data[t].to_norm();
                proof {
                    T::lemma_norm_is_unit(self.data@[t as int]);
                    assert(plane.samples[t as int] == self.data@[t as int].norm());
                }
                sum = sum + f.raw as u128;
                t += 1;
            }
            y += 1;
        }
        proof {
            lemma_block_sum_bound(plane, x0 as int, x1 as int, y0 as int, y1 - y0);
        }
        sum
    }

    /// The fingerprint of the image. It depends on the normalized content of
    /// the image alone.
    pub fn hash(&self) -> (h: Hash)
        requires
            self.wf(),
        ensures
            h.digest == spec_hash(self@),
    {
        let width = self.width;
        let height = self.height;
        let channels = C::channels();
        let ghost plane = self@;
        let ghost bits = cell_bits(plane);
        proof {
            C::lemma_channels();
            lemma2_to64();
            lemma2_to64_rest();
            lemma_vec_len_fits(&self.data);
        }
        let mut digest: u64 = 0;
        let mut weight: u64 = 1;
        let mut k: usize = 0;
        while k < 64
            invariant
                k <= 64,
                self.wf(),
                width == self.width,
                height == self.height,
                channels == C::spec_channels(),
                0 < channels,
                plane == self@,
                bits == cell_bits(plane),
                self.data@.len() <= usize::MAX,
                digest == digest_of(bits, k as int),
                k < 64 ==> weight == pow2(k as nat),
            decreases 64 - k,
        {
            let i = k % 8;
            let j = k / 8;
            proof {
                lemma_cell_start(width as int, i as int);
                lemma_cell_start(height as int, j as int);
                lemma_digest_bound(bits, k as int);
                lemma_pow2_unfold((k + 1) as nat);
                lemma2_to64();
                lemma2_to64_rest();
            }
            let x0 = cell_edge(width, i);
            let x1 = cell_edge(width, i + 1);
            let y0 = cell_edge(height, j);
            let y1 = cell_edge(height, j + 1);
            let sum = self.block_total(x0, x1, y0, y1);
            proof {
                assert((x1 - x0) * (y1 - y0) <= width * height) by (nonlinear_arith)
                    requires
                        0 <= x1 - x0 <= width,
                        0 <= y1 - y0 <= height,
                ;
                assert(width * height <= width * height * channels) by (nonlinear_arith)
                    requires
                        0 <= width * height,
                        0 < channels,
                ;
                assert(0 <= (x1 - x0) * (y1 - y0) && (x1 - x0) * (y1 - y0) * channels <= width
                    * height * channels) by (nonlinear_arith)
                    requires
                        0 <= x1 - x0,
                        0 <= y1 - y0,
                        (x1 - x0) * (y1 - y0) <= width * height,
                        0 < channels,
                ;
                assert((y1 - y0) * ((x1 - x0) * channels) == (x1 - x0) * (y1 - y0) * channels)
                    by (nonlinear_arith);
                assert(sum <= usize::MAX * SCALE) by (nonlinear_arith)
                    requires
                        sum <= (x1 - x0) * (y1 - y0) * channels * SCALE,
                        (x1 - x0) * (y1 - y0) * channels <= usize::MAX,
                ;
                assert(bits(k as int) == cell_bit(plane, k as int));
            }
            let count: u128 = ((x1 - x0) as u128) * ((y1 - y0) as u128) * (channels as u128);
            if 2 * sum > count * 0x1_0000_0000 {
                assert(pow2(k as nat) <= pow2(63)) by {
                    if k < 63 {
                        vstd::arithmetic::power2::lemma_pow2_strictly_increases(k as nat, 63);
                    }
                }
                digest = digest + weight;
            }
            if k < 63 {
                assert(pow2(k as nat) < pow2(63)) by {
                    vstd::arithmetic::power2::lemma_pow2_strictly_increases(k as nat, 63);
                }
                weight = weight * 2;
            }
            k += 1;
        }
        Hash { digest }
    }
}

/// Images with the same dimensions and the same samples have the same
/// fingerprint, at distance zero.
pub proof fn lemma_hash_deterministic<T: Type, C: Color>(a: &Image<T, C>, b: &Image<T, C>)
    requires
        a.same_shape(b),
        a.data@ == b.data@,
    ensures
        spec_hash(a@) == spec_hash(b@),
        hamming(spec_hash(a@), spec_hash(b@), 64) == 0,
{
    assert(a@.samples =~= b@.samples);
    assert(a@ == b@);
    lemma_digest_bound(cell_bits(a@), 64);
    lemma_hamming_zero(spec_hash(a@), spec_hash(b@), 64);
}

/// The law of the inverse: where `b` is the complement of `a` and the mean of
/// some cell `k` of `a` is not exactly one half, the two fingerprints differ,
/// at a distance that is not zero.
pub proof fn lemma_hash_of_inverse<T: Type, C: Color>(a: &Image<T, C>, b: &Image<T, C>, k: int)
    requires
        a.wf(),
        b.wf(),
        is_inverse(b, a),
        0 <= k < 64,
        2 * cell_sum(a@, k) != cell_count(a@, k) * SCALE,
    ensures
        spec_hash(a@) != spec_hash(b@),
        hamming(spec_hash(a@), spec_hash(b@), 64) != 0,
{
    let pa = a@;
    let pb = b@;
    C::lemma_channels();
    a.lemma_view_wf();
    assert forall|i: int| 0 <= i < pa.samples.len() implies #[trigger] pb.samples[i] == SCALE
        - pa.samples[i] by {
        T::lemma_complement(a.data@[i]);
        assert(b.data@[i] == T::denorm(SCALE - a.data@[i].norm()));
    }
    let w = pa.width as int;
    let h = pa.height as int;
    lemma_cell_start(w, k % 8);
    lemma_cell_start(h, k / 8);
    let x0 = cell_start(w, k % 8);
    let x1 = cell_start(w, k % 8 + 1);
    let y0 = cell_start(h, k / 8);
    let y1 = cell_start(h, k / 8 + 1);
    lemma_block_sum_complement(pa, pb, x0, x1, y0, y1 - y0);
    assert((y1 - y0) * ((x1 - x0) * pa.channels) == (x1 - x0) * (y1 - y0) * pa.channels)
        by (nonlinear_arith);
    assert(cell_sum(pb, k) == cell_count(pa, k) * SCALE - cell_sum(pa, k));
    assert(cell_count(pb, k) == cell_count(pa, k));
    assert(cell_bit(pa, k) != cell_bit(pb, k));
    assert(cell_bits(pa)(k) != cell_bits(pb)(k));
    lemma_digest_injective(cell_bits(pa), cell_bits(pb), 64, k);
    lemma_digest_bound(cell_bits(pa), 64);
    lemma_digest_bound(cell_bits(pb), 64);
    lemma_hamming_zero(spec_hash(pa), spec_hash(pb), 64);
}

/// An image filled from the responses of the inverting filter to an image of
/// the same type and dimensions is the complement of that image.
pub proof fn lemma_inverted_is_inverse<T: Type, C: Color>(a: &Image<T, C>, b: &Image<T, C>)
    requires
        a.wf(),
        b.wf(),
        b.same_shape(a),
        forall|x: int, y: int, c: int|
            b.in_bounds(x, y, c) ==> #[trigger] b.sample(x, y, c) == T::denorm(
                clamp_unit(Invert.response(x, y, c, seq![a@])),
            ),
    ensures
        is_inverse(b, a),
{
    C::lemma_channels();
    let width = a.width as int;
    let height = a.height as int;
    let channels = C::spec_channels() as int;
    assert forall|i: int| 0 <= i < a.data@.len() implies #[trigger] b.data@[i] == T::denorm(
        SCALE - a.data@[i].norm(),
    ) by {
        lemma_coordinates(width, height, channels, i);
        let (x, y, c) = coordinates(width, channels, i);
        assert(b.in_bounds(x, y, c));
        assert(b.sample(x, y, c) == b.data@[i]);
        assert(seq![a@][0] == a@);
        T::lemma_norm_is_unit(a.data@[i]);
    }
}

} // verus!
