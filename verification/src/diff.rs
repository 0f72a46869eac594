//! Differences between two images of the same dimensions.
use crate::color::Color;
use crate::error::Error;
use crate::image::{offset, Image};
use crate::ty::Type;
use vstd::arithmetic::div_mod::lemma_fundamental_div_mod;
use vstd::prelude::*;

verus! {

/// A place in an image with the sample that belongs there: `(x, y, channel,
/// value)`.
pub type Entry<T> = (usize, usize, usize, T);

/// The coordinates of the sample at position `i` of a buffer.
pub open spec fn coordinates(width: int, channels: int, i: int) -> (int, int, int) {
    ((i / channels) % width, (i / channels) / width, i % channels)
}

/// The entry for position `i` of a buffer that holds `v` there.
pub open spec fn entry_at<T>(width: int, channels: int, i: int, v: T) -> Entry<T> {
    let (x, y, c) = coordinates(width, channels, i);
    (x as usize, y as usize, c as usize, v)
}

/// The entries for the positions among the first `n` where `a` and `b`
/// differ, in order, each with the sample of `a`.
pub open spec fn diff_entries<T>(a: Seq<T>, b: Seq<T>, width: int, channels: int, n: int) -> Seq<
    Entry<T>,
>
    decreases n,
{
    if n <= 0 {
        Seq::empty()
    } else {
        let rest = diff_entries(a, b, width, channels, n - 1);
        if a[n - 1] != b[n - 1] {
            rest.push(entry_at(width, channels, n - 1, a[n - 1]))
        } else {
            rest
        }
    }
}

/// The buffer after each entry, in order, has overwritten the sample at its
/// place.
pub open spec fn apply_entries<T>(data: Seq<T>, entries: Seq<Entry<T>>, width: int, channels: int) -> Seq<
    T,
>
    decreases entries.len(),
{
    if entries.len() == 0 {
        data
    } else {
        let e = entries.last();
        apply_entries(data, entries.drop_last(), width, channels).update(
            offset(width, channels, e.0 as int, e.1 as int, e.2 as int),
            e.3,
        )
    }
}

/// Whether the place of an entry lies inside an image of the given
/// dimensions.
pub open spec fn entry_fits<T>(e: Entry<T>, width: int, height: int, channels: int) -> bool {
    e.0 < width && e.1 < height && e.2 < channels
}

/// The coordinates of a position of a buffer lie inside the image, and their
/// offset is the position.
pub proof fn lemma_coordinates(width: int, height: int, channels: int, i: int)
    requires
        0 <= i < width * height * channels,
        0 <= width,
        0 <= height,
        0 < channels,
    ensures
        0 <= coordinates(width, channels, i).0 < width,
        0 <= coordinates(width, channels, i).1 < height,
        0 <= coordinates(width, channels, i).2 < channels,
        offset(
            width,
            channels,
            coordinates(width, channels, i).0,
            coordinates(width, channels, i).1,
            coordinates(width, channels, i).2,
        ) == i,
{
    let p = i / channels;
    lemma_fundamental_div_mod(i, channels);
    assert(0 <= p && p < width * height) by (nonlinear_arith)
        requires
            i == channels * p + i % channels,
            0 <= i % channels < channels,
            0 <= i < width * height * channels,
            0 < channels,
    ;
    assert(width > 0) by (nonlinear_arith)
        requires
            0 <= p < width * height,
            0 <= width,
    ;
    lemma_fundamental_div_mod(p, width);
    let y = p / width;
    assert(0 <= y < height) by (nonlinear_arith)
        requires
            p == width * y + p % width,
            0 <= p % width < width,
            0 <= p < width * height,
            0 < width,
    ;
    assert((y * width + p % width) * channels + i % channels == i) by (nonlinear_arith)
        requires
            p == width * y + p % width,
            i == channels * p + i % channels,
    ;
}

/// Applying the entries for the first `n` positions to `b` gives `a` on
/// those positions and leaves `b` on the others.
pub proof fn lemma_apply_diff_prefix<T>(
    a: Seq<T>,
    b: Seq<T>,
    width: int,
    height: int,
    channels: int,
    n: int,
)
    requires
        a.len() == width * height * channels,
        b.len() == a.len(),
        0 <= width <= usize::MAX,
        0 <= height <= usize::MAX,
        0 < channels <= usize::MAX,
        0 <= n <= a.len(),
    ensures
        apply_entries(b, diff_entries(a, b, width, channels, n), width, channels).len() == a.len(),
        forall|j: int|
            0 <= j < n ==> apply_entries(
                b,
                diff_entries(a, b, width, channels, n),
                width,
                channels,
            )[j] == a[j],
        forall|j: int|
            n <= j < a.len() ==> apply_entries(
                b,
                diff_entries(a, b, width, channels, n),
                width,
                channels,
            )[j] == b[j],
        forall|k: int|
            0 <= k < diff_entries(a, b, width, channels, n).len() ==> entry_fits(
                #[trigger] diff_entries(a, b, width, channels, n)[k],
                width,
                height,
                channels,
            ),
    decreases n,
{
    if n > 0 {
        lemma_apply_diff_prefix(a, b, width, height, channels, n - 1);
        if a[n - 1] != b[n - 1] {
            let rest = diff_entries(a, b, width, channels, n - 1);
            let e = entry_at(width, channels, n - 1, a[n - 1]);
            lemma_coordinates(width, height, channels, n - 1);
            assert(rest.push(e).drop_last() == rest);
            assert(rest.push(e).last() == e);
        }
    }
}

/// A sparse record of where two images differ and of what the first one
/// holds there.
#[derive(Debug, Clone, PartialEq)]
pub struct Diff<T: Type> {
    /// The places where the images differ, row by row, with the sample of
    /// the first image.
    pub entries: Vec<Entry<T>>,
}

impl<T: Type> Diff<T> {
    /// The number of samples that differ.
    pub fn len(&self) -> (n: usize)
        ensures
            n == self.entries@.len(),
    {
        self.entries.len()
    }

    /// Whether the two images are equal.
    pub fn is_empty(&self) -> (b: bool)
        ensures
            b == (self.entries@.len() == 0),
    {
        self.entries.len() == 0
    }

    /// Overwrites each recorded place of `target` with the recorded sample.
    /// Where a recorded place lies outside `target`, nothing is written.
    pub fn apply<C: Color>(&self, target: &mut Image<T, C>) -> (r: Result<(), Error>)
        requires
            old(target).wf(),
        ensures
            final(target).wf(),
            final(target).same_shape(old(target)),
            r is Ok <==> forall|k: int|
                0 <= k < self.entries@.len() ==> entry_fits(
                    #[trigger] self.entries@[k],
                    old(target).width as int,
                    old(target).height as int,
                    C::spec_channels() as int,
                ),
            r is Ok ==> final(target).data@ == apply_entries(
                old(target).data@,
                self.entries@,
                old(target).width as int,
                C::spec_channels() as int,
            ),
            r is Err ==> r == Err::<(), Error>(Error::OutOfBounds) && final(target).data@ == old(
                target,
            ).data@,
    {
        let channels = C::channels();
        let n = self.entries.len();
        let mut k: usize = 0;
        while k < n
            invariant
                k <= n,
                n == self.entries@.len(),
                channels == C::spec_channels(),
                *target == *old(target),
                target.wf(),
                forall|t: int|
                    0 <= t < k ==> entry_fits(
                        #[trigger] self.entries@[t],
                        target.width as int,
                        target.height as int,
                        channels as int,
                    ),
            decreases n - k,
        {
            let (x, y, c, _) = self.entries[k];
            if x >= target.width || y >= target.height || c >= channels {
                assert(!entry_fits(
                    self.entries@[k as int],
                    target.width as int,
                    target.height as int,
                    channels as int,
                ));
                return Err(Error::OutOfBounds);
            }
            k += 1;
        }
        let ghost start = target.data@;
        let ghost width = target.width as int;
        k = 0;
        while k < n
            invariant
                k <= n,
                n == self.entries@.len(),
                channels == C::spec_channels(),
                target.wf(),
                target.width == width,
                target.same_shape(old(target)),
                forall|t: int|
                    0 <= t < n ==> entry_fits(
                        #[trigger] self.entries@[t],
                        target.width as int,
                        target.height as int,
                        channels as int,
                    ),
                target.data@ == apply_entries(
                    start,
                    self.entries@.take(k as int),
                    width,
                    channels as int,
                ),
            decreases n - k,
        {
            let (x, y, c, v) = self.entries[k];
            assert(entry_fits(
                self.entries@[k as int],
                target.width as int,
                target.height as int,
                channels as int,
            ));
            proof {
                let next = self.entries@.take(k + 1);
                assert(next.drop_last() == self.entries@.take(k as int));
                assert(next.last() == self.entries@[k as int]);
            }
            target.set(x, y, c, v);
            k += 1;
        }
        proof {
            assert(self.entries@.take(n as int) == self.entries@);
        }
        Ok(())
    }
}

impl<T: Type, C: Color> Image<T, C> {
    /// The record of every place where this image differs from `other`, with
    /// the sample that this image holds there. The images must have the same
    /// dimensions.
    pub fn diff(&self, other: &Image<T, C>) -> (r: Result<Diff<T>, Error>)
        requires
            self.wf(),
            other.wf(),
        ensures
            r is Ok <==> self.same_shape(other),
            r is Err ==> r == Err::<Diff<T>, Error>(Error::ShapeMismatch),
            r is Ok ==> r->Ok_0.entries@ == diff_entries(
                self.data@,
                other.data@,
                self.width as int,
                C::spec_channels() as int,
                self.data@.len() as int,
            ),
    {
        if self.width != other.width || self.height != other.height {
            return Err(Error::ShapeMismatch);
        }
        let channels = C::channels();
        let width = self.width;
        let n = self.data.len();
        proof {
            C::lemma_channels();
        }
        let mut entries: Vec<Entry<T>> = Vec::new();
        let mut i: usize = 0;
        while i < n
            invariant
                i <= n,
                n == self.data@.len(),
                n == other.data@.len(),
                self.wf(),
                width == self.width,
                channels == C::spec_channels(),
                channels > 0,
                entries@ == diff_entries(
                    self.data@,
                    other.data@,
                    width as int,
                    channels as int,
                    i as int,
                ),
            decreases n - i,
        {
            let a = self.data[i];
            let b = other.data[i];
            if !a.same(&b) {
                proof {
                    lemma_coordinates(
                        width as int,
                        self.height as int,
                        channels as int,
                        i as int,
                    );
                }
                let p = i / channels;
                entries.push((p % width, p / width, i % channels, a));
            }
            i += 1;
        }
        Ok(Diff { entries })
    }
}

/// The law of differences: for two images of the same dimensions, the record
/// of where the first differs from the second, applied to the second, gives
/// the first; and every recorded place lies inside the images.
pub proof fn lemma_diff_apply<T: Type, C: Color>(a: &Image<T, C>, b: &Image<T, C>)
    requires
        a.wf(),
        b.wf(),
        a.same_shape(b),
    ensures
        apply_entries(
            b.data@,
            diff_entries(
                a.data@,
                b.data@,
                a.width as int,
                C::spec_channels() as int,
                a.data@.len() as int,
            ),
            b.width as int,
            C::spec_channels() as int,
        ) == a.data@,
        forall|k: int|
            0 <= k < diff_entries(
                a.data@,
                b.data@,
                a.width as int,
                C::spec_channels() as int,
                a.data@.len() as int,
            ).len() ==> entry_fits(
                #[trigger] diff_entries(
                    a.data@,
                    b.data@,
                    a.width as int,
                    C::spec_channels() as int,
                    a.data@.len() as int,
                )[k],
                b.width as int,
                b.height as int,
                C::spec_channels() as int,
            ),
{
    C::lemma_channels();
    lemma_apply_diff_prefix(
        a.data@,
        b.data@,
        a.width as int,
        a.height as int,
        C::spec_channels() as int,
        a.data@.len() as int,
    );
    let applied = apply_entries(
        b.data@,
        diff_entries(
            a.data@,
            b.data@,
            a.width as int,
            C::spec_channels() as int,
            a.data@.len() as int,
        ),
        b.width as int,
        C::spec_channels() as int,
    );
    assert(applied =~= a.data@);
}

} // verus!
