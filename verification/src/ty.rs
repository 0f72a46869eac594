//! Sample types: the numeric domains that a channel value can come from.
use crate::fixed::{clamp_unit, ratio_spec, round_div, Fixed, SCALE};
use vstd::prelude::*;

verus! {

/// A numeric sample domain with its normalization to the unit interval.
///
/// `norm` maps the least sample to `0.0` and the greatest to `1.0`; `denorm`
/// maps a unit value to the nearest sample. The lemmas are the laws that every
/// domain obeys, so code that is generic in the domain can rely on them.
pub trait Type: Copy + Sized {
    /// The normalized value of a sample, as a raw fixed-point number.
    spec fn norm(self) -> int;

    /// The sample nearest to the unit value with raw representation `n`.
    spec fn denorm(n: int) -> Self;

    /// The name of the domain.
    spec fn spec_name() -> Seq<char>;

    /// A normalized sample lies in the unit interval.
    proof fn lemma_norm_is_unit(v: Self)
        ensures
            0 <= v.norm() <= SCALE,
    ;

    /// Normalizing a sample and converting back gives the sample again.
    proof fn lemma_round_trip(v: Self)
        ensures
            Self::denorm(v.norm()) == v,
    ;

    /// The complement of a normalized sample is itself the normalized value of
    /// a sample.
    proof fn lemma_complement(v: Self)
        ensures
            Self::denorm(SCALE - v.norm()).norm() == SCALE - v.norm(),
    ;

    /// The sample for `0.0` normalizes to `0.0`.
    proof fn lemma_zero()
        ensures
            Self::denorm(0).norm() == 0,
    ;

    /// The normalized value of the sample, which lies in the unit interval.
    fn to_norm(&self) -> (n: Fixed)
        ensures
            n@ == self.norm(),
            n.is_unit(),
    ;

    /// The sample nearest to `n`, after `n` is limited to the unit interval.
    fn from_norm(n: Fixed) -> (v: Self)
        ensures
            v == Self::denorm(clamp_unit(n@)),
    ;

    /// The name of the domain.
    fn name() -> (s: &'static str)
        ensures
            s@ == Self::spec_name(),
    ;

    /// Whether two samples are equal.
    fn same(&self, other: &Self) -> (b: bool)
        ensures
            b == (*self == *other),
    ;
}

/// The law of the round trip: the sample nearest to the normalized value of
/// a sample, limited to the unit interval, is the sample itself. So
/// `from_norm` undoes `to_norm` exactly, in every domain.
pub proof fn lemma_from_norm_to_norm<T: Type>(v: T)
    ensures
        T::denorm(clamp_unit(v.norm())) == v,
{
    T::lemma_norm_is_unit(v);
    T::lemma_round_trip(v);
}

/// The closed form of the normalized value of a sample.
pub proof fn lemma_u8_norm(v: u8)
    ensures
        v.norm() == (v as int) * 0x0101_0101int + (if v >= 0x80 { 1int } else { 0int }),
{
    let i = v as int;
    let e = if v >= 0x80 { 1int } else { 0int };
    let p = i * 0x1_0000_0000int;
    assert(i * SCALE as int == p);
    assert(2 * p + 0xffint == (2 * 0xffint) * (i * 0x0101_0101int + e) + (2 * i + 0xffint - 2 * 0xffint * e));
    assert((2 * p + 0xffint) / (2 * 0xffint) == i * 0x0101_0101int + e);
    assert(round_div(p, 0xffint) == i * 0x0101_0101int + e);
}

/// The sample nearest to a unit value that is within one step of a
/// normalized sample.
pub proof fn lemma_u8_denorm(v: u8, e: int)
    requires
        e == 0 || e == 1,
    ensures
        <u8 as Type>::denorm((v as int) * 0x0101_0101int + e) == v,
{
    let i = v as int;
    let n = i * 0x0101_0101int + e;
    let p = n * 0xffint;
    assert(2 * p + 0x1_0000_0000int == 0x2_0000_0000int * i + (0x1_0000_0000int - 2 * i + 2 * 0xffint * e));
    assert((2 * p + 0x1_0000_0000int) / 0x2_0000_0000int == i);
    assert(round_div(p, SCALE as int) == i);
}

impl Type for u8 {
    open spec fn norm(self) -> int {
        ratio_spec(self as int, 0xff)
    }

    open spec fn denorm(n: int) -> u8 {
        round_div(n * 0xff, SCALE as int) as u8
    }

    open spec fn spec_name() -> Seq<char> {
        "u8"@
    }

    proof fn lemma_norm_is_unit(v: u8) {
        lemma_u8_norm(v);
    }

    proof fn lemma_round_trip(v: u8) {
        lemma_u8_norm(v);
        lemma_u8_denorm(v, v.norm() - v * (SCALE / 0xff));
    }

    proof fn lemma_complement(v: u8) {
        let w: u8 = (0xff - v) as u8;
        lemma_u8_norm(v);
        lemma_u8_norm(w);
        lemma_u8_denorm(w, w.norm() - w * (SCALE / 0xff));
    }

    proof fn lemma_zero() {
        lemma_u8_norm(0);
        lemma_u8_denorm(0, 0);
    }

    fn to_norm(&self) -> (n: Fixed) {
        proof {
            lemma_u8_norm(*self);
        }
        Fixed::from_ratio(*self as u64, 0xff)
    }

    fn from_norm(n: Fixed) -> (v: u8) {
        let c = n.clamp_unit();
        let p: u64 = (c.raw as u64) * 0xff;
        ((2 * p + 0x1_0000_0000) / 0x2_0000_0000) as u8
    }

    fn name() -> (s: &'static str) {
        "u8"
    }

    fn same(&self, other: &u8) -> (b: bool) {
        *self == *other
    }
}

/// The closed form of the normalized value of a sample.
pub proof fn lemma_u16_norm(v: u16)
    ensures
        v.norm() == (v as int) * 0x0001_0001int + (if v >= 0x8000 { 1int } else { 0int }),
{
    let i = v as int;
    let e = if v >= 0x8000 { 1int } else { 0int };
    let p = i * 0x1_0000_0000int;
    assert(i * SCALE as int == p);
    assert(2 * p + 0xffffint == (2 * 0xffffint) * (i * 0x0001_0001int + e) + (2 * i + 0xffffint - 2 * 0xffffint * e));
    assert((2 * p + 0xffffint) / (2 * 0xffffint) == i * 0x0001_0001int + e);
    assert(round_div(p, 0xffffint) == i * 0x0001_0001int + e);
}

/// The sample nearest to a unit value that is within one step of a
/// normalized sample.
pub proof fn lemma_u16_denorm(v: u16, e: int)
    requires
        e == 0 || e == 1,
    ensures
        <u16 as Type>::denorm((v as int) * 0x0001_0001int + e) == v,
{
    let i = v as int;
    let n = i * 0x0001_0001int + e;
    let p = n * 0xffffint;
    assert(2 * p + 0x1_0000_0000int == 0x2_0000_0000int * i + (0x1_0000_0000int - 2 * i + 2 * 0xffffint * e));
    assert((2 * p + 0x1_0000_0000int) / 0x2_0000_0000int == i);
    assert(round_div(p, SCALE as int) == i);
}

impl Type for u16 {
    open spec fn norm(self) -> int {
        ratio_spec(self as int, 0xffff)
    }

    open spec fn denorm(n: int) -> u16 {
        round_div(n * 0xffff, SCALE as int) as u16
    }

    open spec fn spec_name() -> Seq<char> {
        "u16"@
    }

    proof fn lemma_norm_is_unit(v: u16) {
        lemma_u16_norm(v);
    }

    proof fn lemma_round_trip(v: u16) {
        lemma_u16_norm(v);
        lemma_u16_denorm(v, v.norm() - v * (SCALE / 0xffff));
    }

    proof fn lemma_complement(v: u16) {
        let w: u16 = (0xffff - v) as u16;
        lemma_u16_norm(v);
        lemma_u16_norm(w);
        lemma_u16_denorm(w, w.norm() - w * (SCALE / 0xffff));
    }

    proof fn lemma_zero() {
        lemma_u16_norm(0);
        lemma_u16_denorm(0, 0);
    }

    fn to_norm(&self) -> (n: Fixed) {
        proof {
            lemma_u16_norm(*self);
        }
        Fixed::from_ratio(*self as u64, 0xffff)
    }

    fn from_norm(n: Fixed) -> (v: u16) {
        let c = n.clamp_unit();
        let p: u64 = (c.raw as u64) * 0xffff;
        ((2 * p + 0x1_0000_0000) / 0x2_0000_0000) as u16
    }

    fn name() -> (s: &'static str) {
        "u16"
    }

    fn same(&self, other: &u16) -> (b: bool) {
        *self == *other
    }
}

} // verus!
