//! Conversion between color models, by way of red, green, blue and alpha.
//!
//! A pixel of any model is first read as four primaries and then written in
//! the model converted to:
//!
//! - Gray and packed pixels give their one channel to red, green and blue.
//! - Red, green, blue and alpha are moved, in the order of the model. A
//!   model without alpha reads as alpha `1.0`.
//! - Cyan, magenta and yellow with black `k` stand for the primaries
//!   `(1 - c)(1 - k)`, and primaries with the greatest one `m` for black
//!   `k = 1 - m` and `c = (1 - r - k) / (1 - k)`; black itself is
//!   `(0, 0, 0, 1)`.
//! - Luminance is `0.299 r + 0.587 g + 0.114 b`, and the two chrominance
//!   channels are `0.5 + (b - y) / 1.772` and `0.5 + (r - y) / 1.402`.
use crate::color::Model;
use crate::fixed::{minus_spec, over_spec, plus_spec, times_spec, Fixed, SCALE};
use vstd::prelude::*;

verus! {

/// The raw representation of `0.5`.
pub const HALF: i64 = 0x8000_0000;

/// The raw share of red in luminance, `0.299`.
pub const LUMA_R: i64 = 1284195222;

/// The raw share of green in luminance, `0.587`, so that the three shares
/// sum to one.
pub const LUMA_G: i64 = 2521145802;

/// The raw share of blue in luminance, `0.114`.
pub const LUMA_B: i64 = 489626272;

/// The raw factor `1 / 1.772` from blue less luminance to chrominance.
pub const BLUE_TO_U: i64 = 2423796442;

/// The raw factor `1 / 1.402` from red less luminance to chrominance.
pub const RED_TO_V: i64 = 3063457415;

/// The raw factor `1.402` from chrominance to red.
pub const V_TO_RED: i64 = 6021544149;

/// The raw factor `1.772` from chrominance to blue.
pub const U_TO_BLUE: i64 = 7610682049;

/// The raw factor `0.344136` from the first chrominance to green.
pub const U_TO_GREEN: i64 = 1478052865;

/// The raw factor `0.714136` from the second chrominance to green.
pub const V_TO_GREEN: i64 = 3067190765;

/// Red, green, blue and alpha as raw fixed-point numbers.
pub ghost struct Primaries {
    pub r: int,
    pub g: int,
    pub b: int,
    pub a: int,
}

/// Red, green, blue and alpha of one pixel.
#[derive(Clone, Copy, Debug, PartialEq, Eq, Structural)]
pub struct Tone {
    pub r: Fixed,
    pub g: Fixed,
    pub b: Fixed,
    pub a: Fixed,
}

impl View for Tone {
    type V = Primaries;

    open spec fn view(&self) -> Primaries {
        Primaries { r: self.r@, g: self.g@, b: self.b@, a: self.a@ }
    }
}

/// The greatest of three numbers.
pub open spec fn greatest(a: int, b: int, c: int) -> int {
    if a >= b && a >= c {
        a
    } else if b >= c {
        b
    } else {
        c
    }
}

/// The primary that black `k` leaves of a cyan, magenta or yellow `v`.
pub open spec fn from_ink(v: int, k: int) -> int {
    times_spec(minus_spec(SCALE as int, v), minus_spec(SCALE as int, k))
}

/// The cyan, magenta or yellow that stands for the primary `v` beside black
/// `k`.
pub open spec fn to_ink(v: int, k: int) -> int {
    if k == SCALE {
        0
    } else {
        over_spec(minus_spec(minus_spec(SCALE as int, v), k), minus_spec(SCALE as int, k))
    }
}

/// The luminance of three primaries.
pub open spec fn luma(r: int, g: int, b: int) -> int {
    plus_spec(
        plus_spec(times_spec(LUMA_R as int, r), times_spec(LUMA_G as int, g)),
        times_spec(LUMA_B as int, b),
    )
}

/// The chrominance for a primary `v` beside the luminance `y`, by the factor
/// `k`.
pub open spec fn chroma(k: int, v: int, y: int) -> int {
    plus_spec(HALF as int, times_spec(k, minus_spec(v, y)))
}

/// What a chrominance `v` adds to a primary, by the factor `k`.
pub open spec fn from_chroma(k: int, v: int) -> int {
    times_spec(k, minus_spec(v, HALF as int))
}

/// The primaries of a pixel of the given model with the channels `first` to
/// `fourth`; a channel that the model does not have counts for nothing.
pub open spec fn decode_spec(model: Model, first: int, second: int, third: int, fourth: int) -> Primaries {
    match model {
        Model::Gray | Model::RgbPacked => Primaries { r: first, g: first, b: first, a: SCALE as int },
        Model::Rgb => Primaries { r: first, g: second, b: third, a: SCALE as int },
        Model::Bgr => Primaries { r: third, g: second, b: first, a: SCALE as int },
        Model::Rgba => Primaries { r: first, g: second, b: third, a: fourth },
        Model::Bgra => Primaries { r: third, g: second, b: first, a: fourth },
        Model::Cmyk => Primaries {
            r: from_ink(first, fourth),
            g: from_ink(second, fourth),
            b: from_ink(third, fourth),
            a: SCALE as int,
        },
        Model::Yuv => Primaries {
            r: plus_spec(first, from_chroma(V_TO_RED as int, third)),
            g: minus_spec(
                minus_spec(first, from_chroma(U_TO_GREEN as int, second)),
                from_chroma(V_TO_GREEN as int, third),
            ),
            b: plus_spec(first, from_chroma(U_TO_BLUE as int, second)),
            a: SCALE as int,
        },
    }
}

/// Channel `c` of the pixel of the given model that stands for the
/// primaries. It is meant for models with more than one channel.
pub open spec fn encode_spec(model: Model, t: Primaries, c: int) -> int {
    match model {
        Model::Gray | Model::RgbPacked => 0,
        Model::Rgb => if c == 0 {
            t.r
        } else if c == 1 {
            t.g
        } else {
            t.b
        },
        Model::Bgr => if c == 0 {
            t.b
        } else if c == 1 {
            t.g
        } else {
            t.r
        },
        Model::Rgba => if c == 0 {
            t.r
        } else if c == 1 {
            t.g
        } else if c == 2 {
            t.b
        } else {
            t.a
        },
        Model::Bgra => if c == 0 {
            t.b
        } else if c == 1 {
            t.g
        } else if c == 2 {
            t.r
        } else {
            t.a
        },
        Model::Cmyk => {
            let k = minus_spec(SCALE as int, greatest(t.r, t.g, t.b));
            if c == 0 {
                to_ink(t.r, k)
            } else if c == 1 {
                to_ink(t.g, k)
            } else if c == 2 {
                to_ink(t.b, k)
            } else {
                k
            }
        },
        Model::Yuv => {
            let y = luma(t.r, t.g, t.b);
            if c == 0 {
                y
            } else if c == 1 {
                chroma(BLUE_TO_U as int, t.b, y)
            } else {
                chroma(RED_TO_V as int, t.r, y)
            }
        },
    }
}

/// The primary that black `k` leaves of a cyan, magenta or yellow `v`.
fn ink_to_primary(v: Fixed, k: Fixed) -> (r: Fixed)
    ensures
        r@ == from_ink(v@, k@),
{
    Fixed::one().minus(v).times(Fixed::one().minus(k))
}

/// The cyan, magenta or yellow that stands for the primary `v` beside black
/// `k`.
fn primary_to_ink(v: Fixed, k: Fixed) -> (r: Fixed)
    ensures
        r@ == to_ink(v@, k@),
{
    if k.raw == SCALE {
        Fixed::zero()
    } else {
        Fixed::one().minus(v).minus(k).over(Fixed::one().minus(k))
    }
}

/// What a chrominance `v` adds to a primary, by the factor `k`.
fn chroma_to_primary(k: i64, v: Fixed) -> (r: Fixed)
    ensures
        r@ == from_chroma(k as int, v@),
{
    Fixed { raw: k }.times(v.minus(Fixed { raw: HALF }))
}

/// The primaries of a pixel of the given model with the channels `first` to
/// `fourth`.
pub fn decode(model: Model, first: Fixed, second: Fixed, third: Fixed, fourth: Fixed) -> (t: Tone)
    ensures
        t@ == decode_spec(model, first@, second@, third@, fourth@),
{
    match model {
        Model::Gray | Model::RgbPacked => Tone { r: first, g: first, b: first, a: Fixed::one() },
        Model::Rgb => Tone { r: first, g: second, b: third, a: Fixed::one() },
        Model::Bgr => Tone { r: third, g: second, b: first, a: Fixed::one() },
        Model::Rgba => Tone { r: first, g: second, b: third, a: fourth },
        Model::Bgra => Tone { r: third, g: second, b: first, a: fourth },
        Model::Cmyk => Tone {
            r: ink_to_primary(first, fourth),
            g: ink_to_primary(second, fourth),
            b: ink_to_primary(third, fourth),
            a: Fixed::one(),
        },
        Model::Yuv => Tone {
            r: first.plus(chroma_to_primary(V_TO_RED, third)),
            g: first.minus(chroma_to_primary(U_TO_GREEN, second)).minus(
                chroma_to_primary(V_TO_GREEN, third),
            ),
            b: first.plus(chroma_to_primary(U_TO_BLUE, second)),
            a: Fixed::one(),
        },
    }
}

/// Channel `c` of the pixel of the given model that stands for the
/// primaries.
pub fn encode(model: Model, t: Tone, c: usize) -> (v: Fixed)
    requires
        model.spec_channels() > 1,
        c < model.spec_channels(),
    ensures
        v@ == encode_spec(model, t@, c as int),
{
    match model {
        Model::Gray | Model::RgbPacked => Fixed::zero(),
        Model::Rgb => if c == 0 {
            t.r
        } else if c == 1 {
            t.g
        } else {
            t.b
        },
        Model::Bgr => if c == 0 {
            t.b
        } else if c == 1 {
            t.g
        } else {
            t.r
        },
        Model::Rgba => if c == 0 {
            t.r
        } else if c == 1 {
            t.g
        } else if c == 2 {
            t.b
        } else {
            t.a
        },
        Model::Bgra => if c == 0 {
            t.b
        } else if c == 1 {
            t.g
        } else if c == 2 {
            t.r
        } else {
            t.a
        },
        Model::Cmyk => {
            let m = if t.r.raw >= t.g.raw && t.r.raw >= t.b.raw {
                t.r
            } else if t.g.raw >= t.b.raw {
                t.g
            } else {
                t.b
            };
            let k = Fixed::one().minus(m);
            if c == 0 {
                primary_to_ink(t.r, k)
            } else if c == 1 {
                primary_to_ink(t.g, k)
            } else if c == 2 {
                primary_to_ink(t.b, k)
            } else {
                k
            }
        },
        Model::Yuv => {
            let y = Fixed { raw: LUMA_R }.times(t.r).plus(Fixed { raw: LUMA_G }.times(t.g)).plus(
                Fixed { raw: LUMA_B }.times(t.b),
            );
            if c == 0 {
                y
            } else if c == 1 {
                Fixed { raw: HALF }.plus(Fixed { raw: BLUE_TO_U }.times(t.b.minus(y)))
            } else {
                Fixed { raw: HALF }.plus(Fixed { raw: RED_TO_V }.times(t.r.minus(y)))
            }
        },
    }
}

} // verus!
