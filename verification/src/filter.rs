//! Filters: per-pixel computations and the engine that applies one to every
//! sample of a destination image.
use crate::color::{Color, Model};
use crate::convert::{decode, decode_spec, encode, encode_spec};
use crate::fixed::{clamp_unit, minus_spec, round_div, times_spec, Fixed, SCALE};
use crate::image::{all_wf, lemma_offset_in_range, lemma_offset_injective, planes, Image, Plane};
use crate::ty::Type;
use core::marker::PhantomData;
use vstd::prelude::*;

verus! {

/// Whether `(x1, y1, c1)` comes before `(x, y, c)` in the order in which a
/// destination is filled: row by row, pixel by pixel, channel by channel.
pub open spec fn filled_before(x1: int, y1: int, c1: int, x: int, y: int, c: int) -> bool {
    y1 < y || (y1 == y && (x1 < x || (x1 == x && c1 < c)))
}

/// A computation that gives, for a destination coordinate and a list of input
/// images, a response: the value that the destination gets there.
///
/// The response depends on the inputs alone, never on the destination, so the
/// order in which a destination is filled does not matter.
pub trait Filter {
    /// Whether the filter can be computed at `(x, y, c)` on these inputs.
    spec fn accepts(&self, x: int, y: int, c: int, input: Seq<Plane>) -> bool;

    /// The response at `(x, y, c)`, as a raw fixed-point number.
    spec fn response(&self, x: int, y: int, c: int, input: Seq<Plane>) -> int;

    /// The response at `(x, y, c)`.
    fn compute_at<T: Type, C: Color>(
        &self,
        x: usize,
        y: usize,
        c: usize,
        input: &[&Image<T, C>],
    ) -> (r: Fixed)
        requires
            all_wf(input@),
            self.accepts(x as int, y as int, c as int, planes(input@)),
        ensures
            r@ == self.response(x as int, y as int, c as int, planes(input@)),
    ;

    /// Fills every sample of `output` with the sample nearest to the response
    /// there, after the response is limited to the unit interval.
    fn eval<T: Type, C: Color, U: Type, D: Color>(
        &self,
        output: &mut Image<U, D>,
        input: &[&Image<T, C>],
    )
        requires
            old(output).wf(),
            all_wf(input@),
            forall|x: int, y: int, c: int|
                old(output).in_bounds(x, y, c) ==> #[trigger] self.accepts(
                    x,
                    y,
                    c,
                    planes(input@),
                ),
        ensures
            final(output).wf(),
            final(output).same_shape(old(output)),
            forall|x: int, y: int, c: int|
                final(output).in_bounds(x, y, c) ==> #[trigger] final(output).sample(x, y, c)
                    == U::denorm(clamp_unit(self.response(x, y, c, planes(input@)))),
    {
        let width = output.width;
        let height = output.height;
        let channels = D::channels();
        let ghost views = planes(input@);
        let mut y: usize = 0;
        while y < height
            invariant
                y <= height,
                output.wf(),
                output.width == width,
                output.height == height,
                channels == D::spec_channels(),
                all_wf(input@),
                views == planes(input@),
                forall|x1: int, y1: int, c1: int|
                    output.in_bounds(x1, y1, c1) ==> #[trigger] self.accepts(x1, y1, c1, views),
                forall|x1: int, y1: int, c1: int|
                    output.in_bounds(x1, y1, c1) && filled_before(x1, y1, c1, 0, y as int, 0)
                        ==> #[trigger] output.sample(x1, y1, c1) == U::denorm(
                        clamp_unit(self.response(x1, y1, c1, views)),
                    ),
            decreases height - y,
        {
            let mut x: usize = 0;
            while x < width
                invariant
                    x <= width,
                    y < height,
                    output.wf(),
                    output.width == width,
                    output.height == height,
                    channels == D::spec_channels(),
                    all_wf(input@),
                    views == planes(input@),
                    forall|x1: int, y1: int, c1: int|
                        output.in_bounds(x1, y1, c1) ==> #[trigger] self.accepts(
                            x1,
                            y1,
                            c1,
                            views,
                        ),
                    forall|x1: int, y1: int, c1: int|
                        output.in_bounds(x1, y1, c1) && filled_before(
                            x1,
                            y1,
                            c1,
                            x as int,
                            y as int,
                            0,
                        ) ==> #[trigger] output.sample(x1, y1, c1) == U::denorm(
                            clamp_unit(self.response(x1, y1, c1, views)),
                        ),
                decreases width - x,
            {
                let mut c: usize = 0;
                while c < channels
                    invariant
                        c <= channels,
                        x < width,
                        y < height,
                        output.wf(),
                        output.width == width,
                        output.height == height,
                        channels == D::spec_channels(),
                        all_wf(input@),
                        views == planes(input@),
                        forall|x1: int, y1: int, c1: int|
                            output.in_bounds(x1, y1, c1) ==> #[trigger] self.accepts(
                                x1,
                                y1,
                                c1,
                                views,
                            ),
                        forall|x1: int, y1: int, c1: int|
                            output.in_bounds(x1, y1, c1) && filled_before(
                                x1,
                                y1,
                                c1,
                                x as int,
                                y as int,
                                c as int,
                            ) ==> #[trigger] output.sample(x1, y1, c1) == U::denorm(
                                clamp_unit(self.response(x1, y1, c1, views)),
                            ),
                    decreases channels - c,
                {
                    let ghost before = *output;
                    assert(output.in_bounds(x as int, y as int, c as int));
                    let f = self.compute_at(x, y, c, input);
                    output.set_f(x, y, c, f);
                    proof {
                        let here = before.spec_index(x as int, y as int, c as int);
                        lemma_offset_in_range(
                            width as int,
                            height as int,
                            channels as int,
                            x as int,
                            y as int,
                            c as int,
                        );
                        assert forall|x1: int, y1: int, c1: int|
                            output.in_bounds(x1, y1, c1) && filled_before(
                                x1,
                                y1,
                                c1,
                                x as int,
                                y as int,
                                c + 1,
                            ) implies #[trigger] output.sample(x1, y1, c1) == U::denorm(
                            clamp_unit(self.response(x1, y1, c1, views)),
                        ) by {
                            lemma_offset_in_range(
                                width as int,
                                height as int,
                                channels as int,
                                x1,
                                y1,
                                c1,
                            );
                            if x1 == x && y1 == y && c1 == c {
                            } else {
                                if output.spec_index(x1, y1, c1) == here {
                                    lemma_offset_injective(
                                        width as int,
                                        channels as int,
                                        x1,
                                        y1,
                                        c1,
                                        x as int,
                                        y as int,
                                        c as int,
                                    );
                                }
                                assert(before.in_bounds(x1, y1, c1));
                                assert(filled_before(x1, y1, c1, x as int, y as int, c as int));
                                assert(output.sample(x1, y1, c1) == before.sample(x1, y1, c1));
                            }
                        }
                    }
                    c += 1;
                }
                x += 1;
            }
            y += 1;
        }
    }
    /// The samples of row `y` of a destination of the given width in the
    /// color model `D`: for each sample the one nearest to the response
    /// there, after the response is limited to the unit interval. Rows can be
    /// computed in any order, or at the same time.
    fn eval_row<T: Type, C: Color, U: Type, D: Color>(
        &self,
        width: usize,
        y: usize,
        input: &[&Image<T, C>],
    ) -> (row: Vec<U>)
        requires
            width * D::spec_channels() <= usize::MAX,
            all_wf(input@),
            forall|x: int, c: int|
                0 <= x < width && 0 <= c < D::spec_channels() ==> #[trigger] self.accepts(
                    x,
                    y as int,
                    c,
                    planes(input@),
                ),
        ensures
            row@.len() == width * D::spec_channels(),
            forall|x: int, c: int|
                0 <= x < width && 0 <= c < D::spec_channels() ==> #[trigger] row@[x
                    * D::spec_channels() + c] == U::denorm(
                    clamp_unit(self.response(x, y as int, c, planes(input@))),
                ),
    {
        let channels = D::channels();
        let ghost views = planes(input@);
        proof {
            D::lemma_channels();
        }
        let mut row: Vec<U> = Vec::new();
        let mut x: usize = 0;
        while x < width
            invariant
                x <= width,
                channels == D::spec_channels(),
                0 < channels,
                width * channels <= usize::MAX,
                all_wf(input@),
                views == planes(input@),
                forall|x1: int, c1: int|
                    0 <= x1 < width && 0 <= c1 < channels ==> #[trigger] self.accepts(
                        x1,
                        y as int,
                        c1,
                        views,
                    ),
                row@.len() == x * channels,
                forall|x1: int, c1: int|
                    0 <= x1 < x && 0 <= c1 < channels ==> #[trigger] row@[x1 * channels + c1]
                        == U::denorm(clamp_unit(self.response(x1, y as int, c1, views))),
            decreases width - x,
        {
            let mut c: usize = 0;
            while c < channels
                invariant
                    c <= channels,
                    x < width,
                    channels == D::spec_channels(),
                    0 < channels,
                    all_wf(input@),
                    views == planes(input@),
                    forall|x1: int, c1: int|
                        0 <= x1 < width && 0 <= c1 < channels ==> #[trigger] self.accepts(
                            x1,
                            y as int,
                            c1,
                            views,
                        ),
                    row@.len() == x * channels + c,
                    forall|x1: int, c1: int|
                        0 <= x1 < x && 0 <= c1 < channels ==> #[trigger] row@[x1 * channels + c1]
                            == U::denorm(clamp_unit(self.response(x1, y as int, c1, views))),
                    forall|c1: int|
                        0 <= c1 < c ==> #[trigger] row@[x * channels + c1] == U::denorm(
                            clamp_unit(self.response(x as int, y as int, c1, views)),
                        ),
                decreases channels - c,
            {
                let ghost before = row@;
                assert(self.accepts(x as int, y as int, c as int, views));
                let f = self.compute_at(x, y, c, input);
                row.push(U::from_norm(f));
                proof {
                    assert forall|x1: int, c1: int| 0 <= x1 < x && 0 <= c1 < channels implies #[trigger] row@[x1
                        * channels + c1] == U::denorm(
                        clamp_unit(self.response(x1, y as int, c1, views)),
                    ) by {
                        assert(x1 * channels + c1 < x * channels) by (nonlinear_arith)
                            requires
                                0 <= x1 < x,
                                0 <= c1 < channels,
                        ;
                        assert(row@[x1 * channels + c1] == before[x1 * channels + c1]);
                    }
                }
                c += 1;
            }
            proof {
                assert((x + 1) * channels == x * channels + channels) by (nonlinear_arith);
            }
            x += 1;
        }
        row
    }
}

/// The filter that turns every sample into its complement: the response is
/// `1.0` minus the sample of the first input at the same place.
pub struct Invert;

impl Filter for Invert {
    open spec fn accepts(&self, x: int, y: int, c: int, input: Seq<Plane>) -> bool {
        input.len() >= 1 && input[0].in_bounds(x, y, c)
    }

    open spec fn response(&self, x: int, y: int, c: int, input: Seq<Plane>) -> int {
        SCALE - input[0].at(x, y, c)
    }

    fn compute_at<T: Type, C: Color>(
        &self,
        x: usize,
        y: usize,
        c: usize,
        input: &[&Image<T, C>],
    ) -> (r: Fixed) {
        assert(planes(input@)[0] == input@[0]@);
        assert(input@[0].wf());
        let f = input[0].get_f(x, y, c);
        Fixed::one().minus(f)
    }
}

/// The number of channels of a pixel that carry color: all of them, or all
/// but the last where the last one is alpha and is not the only one.
pub open spec fn color_channels(channels: int, has_alpha: bool) -> int {
    if has_alpha && channels > 1 {
        channels - 1
    } else {
        channels
    }
}

/// The sum of the first `k` normalized channels of the pixel at `(x, y)`.
pub open spec fn channel_sum(plane: Plane, x: int, y: int, k: int) -> int
    decreases k,
{
    if k <= 0 {
        0
    } else {
        channel_sum(plane, x, y, k - 1) + plane.at(x, y, k - 1)
    }
}

/// The filter that converts to the color model `D`.
pub struct Convert<D: Color> {
    /// The color model converted to, which holds no data.
    pub color: PhantomData<D>,
}

impl<D: Color> Convert<D> {
    /// The conversion to the color model `D`.
    pub fn new() -> (filter: Convert<D>)
        ensures
            filter == (Convert::<D> { color: PhantomData }),
    {
        Convert { color: PhantomData }
    }
}

/// Channel `i` of the pixel at `(x, y)`, or zero where the image has no
/// such channel.
pub open spec fn channel_or_zero(plane: Plane, x: int, y: int, i: int) -> int {
    if i < plane.channels {
        plane.at(x, y, i)
    } else {
        0
    }
}

/// Channel `c` of the pixel at `(x, y)` converted to the `target` model.
///
/// Into a model with one channel the result is the mean of the color
/// channels of the pixel; an alpha channel does not count as a color
/// channel. Into any other model the pixel goes by way of its red, green,
/// blue and alpha.
pub open spec fn convert_spec(target: Model, plane: Plane, x: int, y: int, c: int) -> int {
    if target.spec_channels() == 1 {
        let k = color_channels(plane.channels as int, plane.has_alpha);
        round_div(channel_sum(plane, x, y, k), k)
    } else {
        encode_spec(
            target,
            decode_spec(
                plane.model,
                channel_or_zero(plane, x, y, 0),
                channel_or_zero(plane, x, y, 1),
                channel_or_zero(plane, x, y, 2),
                channel_or_zero(plane, x, y, 3),
            ),
            c,
        )
    }
}

/// Conversion between color models: the response is the channel of the
/// pixel of the first input at the same place, converted to the model `D`.
impl<D: Color> Filter for Convert<D> {
    open spec fn accepts(&self, x: int, y: int, c: int, input: Seq<Plane>) -> bool {
        input.len() >= 1 && input[0].in_bounds(x, y, 0) && 0 <= c < D::spec_channels()
    }

    open spec fn response(&self, x: int, y: int, c: int, input: Seq<Plane>) -> int {
        convert_spec(D::spec_model(), input[0], x, y, c)
    }

    fn compute_at<T: Type, C: Color>(
        &self,
        x: usize,
        y: usize,
        c: usize,
        input: &[&Image<T, C>],
    ) -> (r: Fixed) {
        assert(planes(input@)[0] == input@[0]@);
        assert(input@[0].wf());
        let image = input[0];
        let channels = C::channels();
        proof {
            C::lemma_channels();
            D::lemma_channels();
        }
        if D::channels() == 1 {
            let k: usize = if C::has_alpha() && channels > 1 {
                channels - 1
            } else {
                channels
            };
            let mut sum: i64 = 0;
            let mut i: usize = 0;
            while i < k
                invariant
                    i <= k <= channels <= 4,
                    channels == C::spec_channels(),
                    image.wf(),
                    image.in_bounds(x as int, y as int, 0),
                    sum == channel_sum(image@, x as int, y as int, i as int),
                    0 <= sum <= i * SCALE,
                decreases k - i,
            {
                let f = image.get_f(x, y, i);
                sum = sum + f.raw;
                i += 1;
            }
            let q: i64 = (2 * sum + k as i64) / (2 * (k as i64));
            Fixed { raw: q }
        } else {
            let first = image.get_f(x, y, 0);
            let second = if channels > 1 {
                image.get_f(x, y, 1)
            } else {
                Fixed::zero()
            };
            let third = if channels > 2 {
                image.get_f(x, y, 2)
            } else {
                Fixed::zero()
            };
            let fourth = if channels > 3 {
                image.get_f(x, y, 3)
            } else {
                Fixed::zero()
            };
            encode(D::model(), decode(C::model(), first, second, third, fourth), c)
        }
    }
}

/// A function from numbers to numbers, to be applied to the response of a
/// filter.
pub trait Transform {
    /// The result on the number with raw representation `v`.
    spec fn apply_spec(&self, v: int) -> int;

    /// The result on `v`.
    fn apply(&self, v: Fixed) -> (r: Fixed)
        ensures
            r@ == self.apply_spec(v@),
    ;
}

/// The transform of a number `v` into `1.0 - v`.
pub struct Complement;

impl Transform for Complement {
    open spec fn apply_spec(&self, v: int) -> int {
        minus_spec(SCALE as int, v)
    }

    fn apply(&self, v: Fixed) -> (r: Fixed) {
        Fixed::one().minus(v)
    }
}

/// The transform of a number `v` into `v` times a factor.
pub struct Scaled {
    /// The factor.
    pub factor: Fixed,
}

impl Transform for Scaled {
    open spec fn apply_spec(&self, v: int) -> int {
        times_spec(v, self.factor@)
    }

    fn apply(&self, v: Fixed) -> (r: Fixed) {
        v.times(self.factor)
    }
}

/// A filter followed by a transform: the response is the transform of the
/// response of the filter. No intermediate image is made.
pub struct AndThen<A: Filter, M: Transform> {
    /// The filter whose response is transformed.
    pub filter: A,
    /// The transform of the response.
    pub transform: M,
}

impl<A: Filter, M: Transform> AndThen<A, M> {
    /// The filter `filter` followed by `transform`.
    pub fn new(filter: A, transform: M) -> (r: AndThen<A, M>)
        ensures
            r.filter == filter,
            r.transform == transform,
    {
        AndThen { filter, transform }
    }
}

impl<A: Filter, M: Transform> Filter for AndThen<A, M> {
    open spec fn accepts(&self, x: int, y: int, c: int, input: Seq<Plane>) -> bool {
        self.filter.accepts(x, y, c, input)
    }

    open spec fn response(&self, x: int, y: int, c: int, input: Seq<Plane>) -> int {
        self.transform.apply_spec(self.filter.response(x, y, c, input))
    }

    fn compute_at<T: Type, C: Color>(
        &self,
        x: usize,
        y: usize,
        c: usize,
        input: &[&Image<T, C>],
    ) -> (r: Fixed) {
        let v = self.filter.compute_at(x, y, c, input);
        self.transform.apply(v)
    }
}

} // verus!
