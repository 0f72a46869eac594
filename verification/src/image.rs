//! Images: a flat buffer of samples with a width, a height and a color model.
use crate::color::{Color, Model};
use crate::fixed::{clamp_unit, Fixed, SCALE};
use crate::ty::Type;
use core::marker::PhantomData;
use vstd::prelude::*;

verus! {

/// The mathematical content of an image: its dimensions and its samples,
/// normalized, in row-major and channel-minor order.
pub ghost struct Plane {
    pub width: nat,
    pub height: nat,
    pub channels: nat,
    pub has_alpha: bool,
    pub model: Model,
    pub samples: Seq<int>,
}

/// The position in the buffer of channel `c` of the pixel at `(x, y)`.
pub open spec fn offset(width: int, channels: int, x: int, y: int, c: int) -> int {
    (y * width + x) * channels + c
}

/// `v` limited to `[0, n - 1]`.
pub open spec fn clamp_index(v: int, n: int) -> int {
    if v < 0 {
        0
    } else if v >= n {
        n - 1
    } else {
        v
    }
}

impl Plane {
    /// The buffer holds one unit value per channel of each pixel.
    pub open spec fn wf(self) -> bool {
        &&& self.samples.len() == self.width * self.height * self.channels
        &&& forall|i: int| 0 <= i < self.samples.len() ==> 0 <= #[trigger] self.samples[i] <= SCALE
    }

    /// Whether `(x, y, c)` names a sample of the image.
    pub open spec fn in_bounds(self, x: int, y: int, c: int) -> bool {
        0 <= x < self.width && 0 <= y < self.height && 0 <= c < self.channels
    }

    /// The normalized sample at `(x, y, c)`.
    pub open spec fn at(self, x: int, y: int, c: int) -> int {
        self.samples[offset(self.width as int, self.channels as int, x, y, c)]
    }

    /// The normalized sample at `(x, y, c)`, where a coordinate outside the
    /// image stands for the nearest one inside.
    pub open spec fn at_clamped(self, x: int, y: int, c: int) -> int {
        self.at(clamp_index(x, self.width as int), clamp_index(y, self.height as int), c)
    }
}

/// The offset of a sample inside an image lies inside its buffer, and so do
/// the intermediate products.
pub proof fn lemma_offset_in_range(width: int, height: int, channels: int, x: int, y: int, c: int)
    requires
        0 <= x < width,
        0 <= y < height,
        0 <= c < channels,
    ensures
        0 <= y * width <= y * width + x < width * height,
        0 <= (y * width + x) * channels <= offset(width, channels, x, y, c) < width * height
            * channels,
        width * height <= width * height * channels,
{
    assert(0 <= y * width && y * width + width <= width * height) by (nonlinear_arith)
        requires
            0 <= y < height,
            0 < width,
    ;
    let p = y * width + x;
    let n = width * height;
    assert(0 <= p * channels && p * channels + channels <= n * channels && n <= n * channels)
        by (nonlinear_arith)
        requires
            0 <= p < n,
            0 < channels,
    ;
}

/// Offsets of distinct coordinates are distinct.
pub proof fn lemma_offset_injective(
    width: int,
    channels: int,
    x1: int,
    y1: int,
    c1: int,
    x2: int,
    y2: int,
    c2: int,
)
    requires
        0 <= x1 < width,
        0 <= x2 < width,
        0 <= c1 < channels,
        0 <= c2 < channels,
        offset(width, channels, x1, y1, c1) == offset(width, channels, x2, y2, c2),
    ensures
        x1 == x2,
        y1 == y2,
        c1 == c2,
{
    let pixel_a = y1 * width + x1;
    let pixel_b = y2 * width + x2;
    assert(pixel_a == pixel_b && c1 == c2) by (nonlinear_arith)
        requires
            pixel_a * channels + c1 == pixel_b * channels + c2,
            0 <= c1 < channels,
            0 <= c2 < channels,
    ;
    assert(y1 == y2 && x1 == x2) by (nonlinear_arith)
        requires
            y1 * width + x1 == y2 * width + x2,
            0 <= x1 < width,
            0 <= x2 < width,
    ;
}

/// The length of a vector fits the machine word.
pub proof fn lemma_vec_len_fits<A>(v: &Vec<A>)
    ensures
        v@.len() <= usize::MAX,
{
    assert(v.len() == v@.len());
}

/// An image of samples of type `T` in the color model `C`.
pub struct Image<T: Type, C: Color> {
    /// The number of pixels in a row.
    pub width: usize,
    /// The number of rows.
    pub height: usize,
    /// The samples, row by row, the channels of a pixel next to each other.
    pub data: Vec<T>,
    /// The color model, which holds no data.
    pub color: PhantomData<C>,
}

impl<T: Type, C: Color> View for Image<T, C> {
    type V = Plane;

    open spec fn view(&self) -> Plane {
        Plane {
            width: self.width as nat,
            height: self.height as nat,
            channels: C::spec_channels(),
            has_alpha: C::spec_has_alpha(),
            model: C::spec_model(),
            samples: Seq::new(self.data@.len(), |i: int| self.data@[i].norm()),
        }
    }
}

/// The views of a list of images.
pub open spec fn planes<T: Type, C: Color>(images: Seq<&Image<T, C>>) -> Seq<Plane> {
    Seq::new(images.len(), |i: int| images[i]@)
}

/// Whether every image of a list is well formed.
pub open spec fn all_wf<T: Type, C: Color>(images: Seq<&Image<T, C>>) -> bool {
    forall|i: int| 0 <= i < images.len() ==> (#[trigger] images[i]).wf()
}

impl<T: Type, C: Color> Image<T, C> {
    /// The buffer holds exactly one sample per channel of each pixel.
    pub open spec fn wf(&self) -> bool {
        self.data@.len() == self.width * self.height * C::spec_channels()
    }

    /// Whether `(x, y, c)` names a sample of the image.
    pub open spec fn in_bounds(&self, x: int, y: int, c: int) -> bool {
        0 <= x < self.width && 0 <= y < self.height && 0 <= c < C::spec_channels()
    }

    /// The position in the buffer of the sample at `(x, y, c)`.
    pub open spec fn spec_index(&self, x: int, y: int, c: int) -> int {
        offset(self.width as int, C::spec_channels() as int, x, y, c)
    }

    /// The sample at `(x, y, c)`.
    pub open spec fn sample(&self, x: int, y: int, c: int) -> T {
        self.data@[self.spec_index(x, y, c)]
    }

    /// Whether the image has the dimensions of `other`.
    pub open spec fn same_shape<U: Type, D: Color>(&self, other: &Image<U, D>) -> bool {
        self.width == other.width && self.height == other.height
    }

    /// The view of a well-formed image is well formed.
    pub proof fn lemma_view_wf(&self)
        requires
            self.wf(),
        ensures
            self@.wf(),
    {
        assert forall|i: int| 0 <= i < self@.samples.len() implies 0 <= #[trigger] self@.samples[i]
            <= SCALE by {
            T::lemma_norm_is_unit(self.data@[i]);
        }
    }

    /// An image of the given size with every sample at zero.
    pub fn new(width: usize, height: usize) -> (image: Image<T, C>)
        requires
            width * height * C::spec_channels() <= usize::MAX,
        ensures
            image.wf(),
            image.width == width,
            image.height == height,
            forall|i: int| 0 <= i < image.data@.len() ==> image.data@[i] == T::denorm(0),
    {
        let channels = C::channels();
        proof {
            C::lemma_channels();
            assert(width * height <= width * height * channels) by (nonlinear_arith)
                requires
                    channels >= 1,
                    width * height >= 0,
            ;
        }
        let len: usize = width * height * channels;
        let zero = T::from_norm(Fixed::zero());
        let mut data: Vec<T> = Vec::new();
        let mut i: usize = 0;
        while i < len
            invariant
                i <= len,
                data@.len() == i,
                zero == T::denorm(0),
                forall|k: int| 0 <= k < i ==> data@[k] == T::denorm(0),
            decreases len - i,
        {
            data.push(zero);
            i += 1;
        }
        Image { width, height, data, color: PhantomData }
    }

    /// A zero image with the dimensions, sample type and color model of this
    /// one.
    pub fn new_like(&self) -> (image: Image<T, C>)
        requires
            self.wf(),
        ensures
            image.wf(),
            image.same_shape(self),
            forall|i: int| 0 <= i < image.data@.len() ==> image.data@[i] == T::denorm(0),
    {
        proof {
            lemma_vec_len_fits(&self.data);
        }
        Image::new(self.width, self.height)
    }

    /// A zero image with the dimensions and sample type of this one, in the
    /// color model `D`.
    pub fn new_like_with_color<D: Color>(&self) -> (image: Image<T, D>)
        requires
            self.width * self.height * D::spec_channels() <= usize::MAX,
        ensures
            image.wf(),
            image.same_shape(self),
            forall|i: int| 0 <= i < image.data@.len() ==> image.data@[i] == T::denorm(0),
    {
        Image::new(self.width, self.height)
    }

    /// A zero image with the dimensions of this one, of sample type `U` in
    /// the color model `D`.
    pub fn new_like_with_type_and_color<U: Type, D: Color>(&self) -> (image: Image<U, D>)
        requires
            self.width * self.height * D::spec_channels() <= usize::MAX,
        ensures
            image.wf(),
            image.same_shape(self),
            forall|i: int| 0 <= i < image.data@.len() ==> image.data@[i] == U::denorm(0),
    {
        Image::new(self.width, self.height)
    }

    /// The position in the buffer of the sample at `(x, y, c)`.
    fn position(&self, x: usize, y: usize, c: usize) -> (i: usize)
        requires
            self.wf(),
            self.in_bounds(x as int, y as int, c as int),
        ensures
            i == self.spec_index(x as int, y as int, c as int),
            i < self.data@.len(),
    {
        proof {
            lemma_vec_len_fits(&self.data);
            lemma_offset_in_range(
                self.width as int,
                self.height as int,
                C::spec_channels() as int,
                x as int,
                y as int,
                c as int,
            );
        }
        (y * self.width + x) * C::channels() + c
    }

    /// The position in the buffer of the first channel of the pixel at
    /// `(x, y)`.
    pub fn index(&self, x: usize, y: usize) -> (i: usize)
        requires
            self.wf(),
            x < self.width,
            y < self.height,
        ensures
            i == self.spec_index(x as int, y as int, 0),
            i + C::spec_channels() <= self.data@.len(),
    {
        proof {
            C::lemma_channels();
            lemma_offset_in_range(
                self.width as int,
                self.height as int,
                C::spec_channels() as int,
                x as int,
                y as int,
                C::spec_channels() - 1,
            );
        }
        self.position(x, y, 0)
    }

    /// The sample at `(x, y, c)`.
    pub fn get(&self, x: usize, y: usize, c: usize) -> (v: T)
        requires
            self.wf(),
            self.in_bounds(x as int, y as int, c as int),
        ensures
            v == self.sample(x as int, y as int, c as int),
    {
        let i = self.position(x, y, c);
        self.data[i]
    }

    /// Stores `v` at `(x, y, c)`.
    pub fn set(&mut self, x: usize, y: usize, c: usize, v: T)
        requires
            old(self).wf(),
            old(self).in_bounds(x as int, y as int, c as int),
        ensures
            final(self).wf(),
            final(self).same_shape(old(self)),
            final(self).data@ == old(self).data@.update(
                old(self).spec_index(x as int, y as int, c as int),
                v,
            ),
    {
        let i = self.position(x, y, c);
        self.data.set(i, v);
    }

    /// The normalized value of the sample at `(x, y, c)`.
    pub fn get_f(&self, x: usize, y: usize, c: usize) -> (f: Fixed)
        requires
            self.wf(),
            self.in_bounds(x as int, y as int, c as int),
        ensures
            f@ == self@.at(x as int, y as int, c as int),
            f.is_unit(),
    {
        let v = self.get(x, y, c);
        proof {
            T::lemma_norm_is_unit(v);
            lemma_offset_in_range(
                self.width as int,
                self.height as int,
                C::spec_channels() as int,
                x as int,
                y as int,
                c as int,
            );
        }
        v.to_norm()
    }

    /// Stores at `(x, y, c)` the sample nearest to `f`, after `f` is limited
    /// to the unit interval.
    pub fn set_f(&mut self, x: usize, y: usize, c: usize, f: Fixed)
        requires
            old(self).wf(),
            old(self).in_bounds(x as int, y as int, c as int),
        ensures
            final(self).wf(),
            final(self).same_shape(old(self)),
            final(self).data@ == old(self).data@.update(
                old(self).spec_index(x as int, y as int, c as int),
                T::denorm(clamp_unit(f@)),
            ),
    {
        self.set(x, y, c, T::from_norm(f));
    }

    /// Overwrites row `y` with the samples of `row`, which holds one sample
    /// per channel of each pixel of a row.
    pub fn set_row(&mut self, y: usize, row: &Vec<T>)
        requires
            old(self).wf(),
            y < old(self).height,
            row@.len() == old(self).width * C::spec_channels(),
        ensures
            final(self).wf(),
            final(self).same_shape(old(self)),
            final(self).data@.len() == old(self).data@.len(),
            forall|i: int|
                0 <= i < old(self).data@.len() ==> #[trigger] final(self).data@[i] == (if y
                    * row@.len() <= i < (y + 1) * row@.len() {
                    row@[i - y * row@.len()]
                } else {
                    old(self).data@[i]
                }),
    {
        let n = row.len();
        proof {
            lemma_vec_len_fits(&self.data);
            assert(0 <= y * n && (y + 1) * n <= self.height * n && (y + 1) * n == y * n + n)
                by (nonlinear_arith)
                requires
                    0 <= y < self.height,
                    0 <= n,
            ;
            assert(self.height * n == self.width * self.height * C::spec_channels())
                by (nonlinear_arith)
                requires
                    n == self.width * C::spec_channels(),
            ;
        }
        let start: usize = y * n;
        let mut k: usize = 0;
        while k < n
            invariant
                k <= n,
                n == row@.len(),
                start == y * n,
                start + n <= self.data@.len(),
                self.data@.len() <= usize::MAX,
                self.wf(),
                self.same_shape(old(self)),
                self.data@.len() == old(self).data@.len(),
                forall|i: int|
                    0 <= i < old(self).data@.len() ==> #[trigger] self.data@[i] == (if start <= i
                        < start + k {
                        row@[i - start]
                    } else {
                        old(self).data@[i]
                    }),
            decreases n - k,
        {
            self.data.set(start + k, row[k]);
            k += 1;
        }
    }

    /// The image with every sample converted to the type `U` by way of its
    /// normalized value.
    pub fn convert_type<U: Type>(&self) -> (image: Image<U, C>)
        requires
            self.wf(),
        ensures
            image.wf(),
            image.same_shape(self),
            image.data@.len() == self.data@.len(),
            forall|i: int|
                0 <= i < self.data@.len() ==> image.data@[i] == U::denorm(
                    (#[trigger] self.data@[i]).norm(),
                ),
    {
        let len = self.data.len();
        let mut data: Vec<U> = Vec::new();
        let mut i: usize = 0;
        while i < len
            invariant
                i <= len,
                len == self.data@.len(),
                data@.len() == i,
                forall|k: int|
                    0 <= k < i ==> data@[k] == U::denorm((#[trigger] self.data@[k]).norm()),
            decreases len - i,
        {
            let n = self.data[i].to_norm();
            proof {
                T::lemma_norm_is_unit(self.data@[i as int]);
            }
            data.push(U::from_norm(n));
            i += 1;
        }
        Image { width: self.width, height: self.height, data, color: PhantomData }
    }
}

} // verus!
