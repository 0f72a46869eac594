//! Raw sensor frames: what a camera stored, before it is an image.
use crate::color::{Color, Gray, Model, Rgb};
use crate::filter::{convert_spec, Convert, Filter};
use crate::fixed::{clamp_unit, Fixed};
use crate::image::{planes, Image, Plane};
use crate::ty::Type;
use core::marker::PhantomData;
use vstd::prelude::*;

verus! {

/// The samples of a raw frame.
#[derive(Debug, Clone, PartialEq)]
pub enum RawData {
    /// Samples stored as 16-bit integers, as almost all cameras do.
    Integer(Vec<u16>),
    /// Samples stored as real numbers, where `1.0` is white.
    Float(Vec<Fixed>),
}

/// A decoded raw frame.
#[derive(Debug, Clone, PartialEq)]
pub struct Raw {
    /// The number of pixels in a row.
    pub width: usize,
    /// The number of rows.
    pub height: usize,
    /// The number of components of a pixel: one for a sensor mosaic, three
    /// for a color frame.
    pub cpp: usize,
    /// The samples, row by row, the components of a pixel next to each
    /// other.
    pub data: RawData,
}

impl RawData {
    /// The number of samples.
    pub open spec fn spec_len(&self) -> nat {
        match self {
            RawData::Integer(v) => v@.len(),
            RawData::Float(v) => v@.len(),
        }
    }

    /// The sample of type `T` nearest to the sample at position `i`: an
    /// integer sample by way of its normalized value, a real sample limited
    /// to the unit interval.
    pub open spec fn sample<T: Type>(&self, i: int) -> T {
        match self {
            RawData::Integer(v) => T::denorm(v@[i].norm()),
            RawData::Float(v) => T::denorm(clamp_unit(v@[i]@)),
        }
    }

    /// The number of samples.
    pub fn len(&self) -> (n: usize)
        ensures
            n == self.spec_len(),
    {
        match self {
            RawData::Integer(v) => v.len(),
            RawData::Float(v) => v.len(),
        }
    }

    /// The sample of type `T` nearest to the sample at position `i`.
    pub fn get<T: Type>(&self, i: usize) -> (v: T)
        requires
            i < self.spec_len(),
        ensures
            v == self.sample::<T>(i as int),
    {
        match self {
            RawData::Integer(v) => {
                proof {
                    <u16 as Type>::lemma_norm_is_unit(v@[i as int]);
                }
                T::from_norm(v[i].to_norm())
            },
            RawData::Float(v) => T::from_norm(v[i]),
        }
    }
}

impl Raw {
    /// Whether the frame holds exactly the samples of an image of its
    /// dimensions with `channels` channels.
    pub open spec fn fits(&self, channels: int) -> bool {
        self.data.spec_len() == self.width * self.height * channels
    }

    /// Whether `image` holds the frame, sample by sample, converted to `T`.
    pub open spec fn converts_to<T: Type, C: Color>(&self, image: &Image<T, C>) -> bool {
        &&& image.wf()
        &&& image.width == self.width
        &&& image.height == self.height
        &&& image.data@.len() == self.data.spec_len()
        &&& forall|i: int|
            0 <= i < image.data@.len() ==> #[trigger] image.data@[i] == self.data.sample::<T>(i)
    }

    /// The frame as an image in the color model `C`, where it holds exactly
    /// the samples of such an image.
    fn build<T: Type, C: Color>(&self) -> (r: Option<Image<T, C>>)
        ensures
            r is Some <==> self.fits(C::spec_channels() as int),
            r is Some ==> self.converts_to(&r->Some_0),
    {
        let channels = C::channels();
        let len = self.data.len();
        proof {
            C::lemma_channels();
            assert(0 <= self.width * self.height <= 0xffff_ffff_ffff_ffff * 0xffff_ffff_ffff_ffff)
                by (nonlinear_arith)
                requires
                    0 <= self.width <= 0xffff_ffff_ffff_ffff,
                    0 <= self.height <= 0xffff_ffff_ffff_ffff,
            ;
        }
        let pixels: u128 = (self.width as u128) * (self.height as u128);
        if pixels > len as u128 {
            assert(self.width * self.height * channels >= self.width * self.height)
                by (nonlinear_arith)
                requires
                    self.width * self.height >= 0,
                    channels >= 1,
            ;
            return None;
        }
        assert(pixels * channels <= 0xffff_ffff_ffff_ffff * 4) by (nonlinear_arith)
            requires
                0 <= pixels <= 0xffff_ffff_ffff_ffff,
                0 <= channels <= 4,
        ;
        if pixels * (channels as u128) != len as u128 {
            return None;
        }
        let mut data: Vec<T> = Vec::new();
        let mut i: usize = 0;
        while i < len
            invariant
                i <= len,
                len == self.data.spec_len(),
                data@.len() == i,
                forall|k: int| 0 <= k < i ==> #[trigger] data@[k] == self.data.sample::<T>(k),
            decreases len - i,
        {
            data.push(self.data.get(i));
            i += 1;
        }
        Some(Image { width: self.width, height: self.height, data, color: PhantomData })
    }

    /// The number of channels of the image that the frame is read as before
    /// it is converted: one for a frame with one component per pixel, three
    /// for any other.
    pub open spec fn spec_channels(&self) -> nat {
        if self.cpp == 1 {
            1
        } else {
            3
        }
    }

    /// The content of the image of sample type `T` that the frame is read as
    /// before it is converted: a gray image for a frame with one component
    /// per pixel, a red, green and blue image for any other.
    pub open spec fn intermediate<T: Type>(&self) -> Plane {
        Plane {
            width: self.width as nat,
            height: self.height as nat,
            channels: self.spec_channels(),
            has_alpha: false,
            model: if self.cpp == 1 {
                Model::Gray
            } else {
                Model::Rgb
            },
            samples: Seq::new(self.data.spec_len(), |i: int| self.data.sample::<T>(i).norm()),
        }
    }

    /// An image that holds the frame, sample by sample, has the content of
    /// the intermediate image.
    proof fn lemma_intermediate<T: Type, C: Color>(&self, image: &Image<T, C>)
        requires
            self.converts_to(image),
            C::spec_channels() == self.spec_channels(),
            !C::spec_has_alpha(),
            C::spec_model() == (if self.cpp == 1 {
                Model::Gray
            } else {
                Model::Rgb
            }),
        ensures
            image@ == self.intermediate::<T>(),
    {
        assert(image@.samples =~= self.intermediate::<T>().samples);
    }

    /// The frame as a color image. There is none for a frame with one
    /// component per pixel, nor for one that does not hold exactly three
    /// samples per pixel.
    pub fn to_rgb_image<T: Type>(self) -> (r: Option<Image<T, Rgb>>)
        ensures
            r is Some <==> self.cpp != 1 && self.fits(3),
            r is Some ==> self.converts_to(&r->Some_0),
            r is Some ==> r->Some_0@ == self.intermediate::<T>(),
    {
        if self.cpp == 1 {
            return None;
        }
        let r = self.build();
        proof {
            if r is Some {
                self.lemma_intermediate(&r->Some_0);
            }
        }
        r
    }

    /// The frame as a gray image. There is none for a frame with more than
    /// one component per pixel, nor for one that does not hold exactly one
    /// sample per pixel.
    pub fn to_gray_image<T: Type>(self) -> (r: Option<Image<T, Gray>>)
        ensures
            r is Some <==> self.cpp == 1 && self.fits(1),
            r is Some ==> self.converts_to(&r->Some_0),
            r is Some ==> r->Some_0@ == self.intermediate::<T>(),
    {
        if self.cpp != 1 {
            return None;
        }
        let r = self.build();
        proof {
            if r is Some {
                self.lemma_intermediate(&r->Some_0);
            }
        }
        r
    }

    /// The frame as an image in the color model `C`: the gray image of a
    /// frame with one component per pixel, or the color image of any other
    /// frame, converted to `C` pixel by pixel.
    pub fn to_image<T: Type, C: Color>(self) -> (image: Image<T, C>)
        requires
            self.fits(self.spec_channels() as int),
            self.width * self.height * C::spec_channels() <= usize::MAX,
        ensures
            image.wf(),
            image.width == self.width,
            image.height == self.height,
            forall|x: int, y: int, c: int|
                image.in_bounds(x, y, c) ==> #[trigger] image.sample(x, y, c) == T::denorm(
                    clamp_unit(convert_spec(C::spec_model(), self.intermediate::<T>(), x, y, c)),
                ),
    {
        let mut image: Image<T, C> = Image::new(self.width, self.height);
        let filter: Convert<C> = Convert::new();
        if self.cpp == 1 {
            let built: Option<Image<T, Gray>> = self.build();
            let gray = built.unwrap();
            proof {
                self.lemma_intermediate(&gray);
            }
            let input = [&gray];
            assert(planes(input@)[0] == gray@);
            filter.eval(&mut image, &input);
        } else {
            let built: Option<Image<T, Rgb>> = self.build();
            let rgb = built.unwrap();
            proof {
                self.lemma_intermediate(&rgb);
            }
            let input = [&rgb];
            assert(planes(input@)[0] == rgb@);
            filter.eval(&mut image, &input);
        }
        image
    }
}

} // verus!
