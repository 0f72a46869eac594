//! Color models: how many channels a pixel has and what they mean.
use vstd::prelude::*;

verus! {

/// What the channels of a pixel mean. Conversions between color models go
/// by this.
#[derive(Debug, Clone, Copy, PartialEq, Eq, Structural)]
pub enum Model {
    /// One luminance channel.
    Gray,
    /// Red, green and blue.
    Rgb,
    /// Blue, green and red.
    Bgr,
    /// Red, green and blue packed into one channel.
    RgbPacked,
    /// Red, green and blue with an alpha channel.
    Rgba,
    /// Blue, green and red with an alpha channel.
    Bgra,
    /// Cyan, magenta, yellow and black.
    Cmyk,
    /// Luminance and two chrominance channels.
    Yuv,
}

impl Model {
    /// The number of channels of a pixel.
    pub open spec fn spec_channels(self) -> nat {
        match self {
            Model::Gray | Model::RgbPacked => 1,
            Model::Rgb | Model::Bgr | Model::Yuv => 3,
            Model::Rgba | Model::Bgra | Model::Cmyk => 4,
        }
    }

    /// Whether the last channel is alpha.
    pub open spec fn spec_has_alpha(self) -> bool {
        self == Model::Rgba || self == Model::Bgra
    }

    /// The number of channels of a pixel.
    pub fn channels(self) -> (n: usize)
        ensures
            n == self.spec_channels(),
    {
        match self {
            Model::Gray | Model::RgbPacked => 1,
            Model::Rgb | Model::Bgr | Model::Yuv => 3,
            Model::Rgba | Model::Bgra | Model::Cmyk => 4,
        }
    }

    /// Whether the last channel is alpha.
    pub fn has_alpha(self) -> (b: bool)
        ensures
            b == self.spec_has_alpha(),
    {
        match self {
            Model::Rgba | Model::Bgra => true,
            _ => false,
        }
    }
}

/// A channel layout. It carries no data: the layout is fixed by the type.
pub trait Color: Sized + Sync + Send {
    /// The name of the layout.
    spec fn spec_name() -> Seq<char>;

    /// The number of channels of a pixel.
    spec fn spec_channels() -> nat;

    /// Whether the last channel is alpha.
    spec fn spec_has_alpha() -> bool;

    /// What the channels mean.
    spec fn spec_model() -> Model;

    /// A pixel has between one and four channels, as many as its model
    /// says, and its model says whether the last one is alpha.
    proof fn lemma_channels()
        ensures
            1 <= Self::spec_channels() <= 4,
            Self::spec_channels() == Self::spec_model().spec_channels(),
            Self::spec_has_alpha() == Self::spec_model().spec_has_alpha(),
    ;

    /// The name of the layout.
    fn name() -> (s: &'static str)
        ensures
            s@ == Self::spec_name(),
    ;

    /// The number of channels of a pixel.
    fn channels() -> (n: usize)
        ensures
            n == Self::spec_channels(),
    ;

    /// Whether the last channel is alpha.
    fn has_alpha() -> (b: bool)
        ensures
            b == Self::spec_has_alpha(),
    ;

    /// What the channels mean.
    fn model() -> (m: Model)
        ensures
            m == Self::spec_model(),
    ;
}

/// One luminance channel.
#[derive(Debug, Clone, Copy, PartialEq)]
pub struct Gray;

impl Color for Gray {
    open spec fn spec_name() -> Seq<char> {
        "gray"@
    }

    open spec fn spec_channels() -> nat {
        1
    }

    open spec fn spec_has_alpha() -> bool {
        false
    }

    open spec fn spec_model() -> Model {
        Model::Gray
    }

    proof fn lemma_channels() {
    }

    fn name() -> (s: &'static str) {
        "gray"
    }

    fn channels() -> (n: usize) {
        1
    }

    fn has_alpha() -> (b: bool) {
        false
    }

    fn model() -> (m: Model) {
        Model::Gray
    }
}

/// Red, green and blue.
#[derive(Debug, Clone, Copy, PartialEq)]
pub struct Rgb;

impl Color for Rgb {
    open spec fn spec_name() -> Seq<char> {
        "rgb"@
    }

    open spec fn spec_channels() -> nat {
        3
    }

    open spec fn spec_has_alpha() -> bool {
        false
    }

    open spec fn spec_model() -> Model {
        Model::Rgb
    }

    proof fn lemma_channels() {
    }

    fn name() -> (s: &'static str) {
        "rgb"
    }

    fn channels() -> (n: usize) {
        3
    }

    fn has_alpha() -> (b: bool) {
        false
    }

    fn model() -> (m: Model) {
        Model::Rgb
    }
}

/// Blue, green and red.
#[derive(Debug, Clone, Copy, PartialEq)]
pub struct Bgr;

impl Color for Bgr {
    open spec fn spec_name() -> Seq<char> {
        "bgr"@
    }

    open spec fn spec_channels() -> nat {
        3
    }

    open spec fn spec_has_alpha() -> bool {
        false
    }

    open spec fn spec_model() -> Model {
        Model::Bgr
    }

    proof fn lemma_channels() {
    }

    fn name() -> (s: &'static str) {
        "bgr"
    }

    fn channels() -> (n: usize) {
        3
    }

    fn has_alpha() -> (b: bool) {
        false
    }

    fn model() -> (m: Model) {
        Model::Bgr
    }
}

/// Red, green and blue packed into one channel.
#[derive(Debug, Clone, Copy, PartialEq)]
pub struct RgbPacked;

impl Color for RgbPacked {
    open spec fn spec_name() -> Seq<char> {
        "rgb_packed"@
    }

    open spec fn spec_channels() -> nat {
        1
    }

    open spec fn spec_has_alpha() -> bool {
        false
    }

    open spec fn spec_model() -> Model {
        Model::RgbPacked
    }

    proof fn lemma_channels() {
    }

    fn name() -> (s: &'static str) {
        "rgb_packed"
    }

    fn channels() -> (n: usize) {
        1
    }

    fn has_alpha() -> (b: bool) {
        false
    }

    fn model() -> (m: Model) {
        Model::RgbPacked
    }
}

/// Red, green and blue with an alpha channel.
#[derive(Debug, Clone, Copy, PartialEq)]
pub struct Rgba;

impl Color for Rgba {
    open spec fn spec_name() -> Seq<char> {
        "rgba"@
    }

    open spec fn spec_channels() -> nat {
        4
    }

    open spec fn spec_has_alpha() -> bool {
        true
    }

    open spec fn spec_model() -> Model {
        Model::Rgba
    }

    proof fn lemma_channels() {
    }

    fn name() -> (s: &'static str) {
        "rgba"
    }

    fn channels() -> (n: usize) {
        4
    }

    fn has_alpha() -> (b: bool) {
        true
    }

    fn model() -> (m: Model) {
        Model::Rgba
    }
}

/// Blue, green and red with an alpha channel.
#[derive(Debug, Clone, Copy, PartialEq)]
pub struct Bgra;

impl Color for Bgra {
    open spec fn spec_name() -> Seq<char> {
        "bgra"@
    }

    open spec fn spec_channels() -> nat {
        4
    }

    open spec fn spec_has_alpha() -> bool {
        true
    }

    open spec fn spec_model() -> Model {
        Model::Bgra
    }

    proof fn lemma_channels() {
    }

    fn name() -> (s: &'static str) {
        "bgra"
    }

    fn channels() -> (n: usize) {
        4
    }

    fn has_alpha() -> (b: bool) {
        true
    }

    fn model() -> (m: Model) {
        Model::Bgra
    }
}

/// Cyan, magenta, yellow and black.
#[derive(Debug, Clone, Copy, PartialEq)]
pub struct Cmyk;

impl Color for Cmyk {
    open spec fn spec_name() -> Seq<char> {
        "cmyk"@
    }

    open spec fn spec_channels() -> nat {
        4
    }

    open spec fn spec_has_alpha() -> bool {
        false
    }

    open spec fn spec_model() -> Model {
        Model::Cmyk
    }

    proof fn lemma_channels() {
    }

    fn name() -> (s: &'static str) {
        "cmyk"
    }

    fn channels() -> (n: usize) {
        4
    }

    fn has_alpha() -> (b: bool) {
        false
    }

    fn model() -> (m: Model) {
        Model::Cmyk
    }
}

/// Luminance and two chrominance channels.
#[derive(Debug, Clone, Copy, PartialEq)]
pub struct Yuv;

impl Color for Yuv {
    open spec fn spec_name() -> Seq<char> {
        "yuv"@
    }

    open spec fn spec_channels() -> nat {
        3
    }

    open spec fn spec_has_alpha() -> bool {
        false
    }

    open spec fn spec_model() -> Model {
        Model::Yuv
    }

    proof fn lemma_channels() {
    }

    fn name() -> (s: &'static str) {
        "yuv"
    }

    fn channels() -> (n: usize) {
        3
    }

    fn has_alpha() -> (b: bool) {
        false
    }

    fn model() -> (m: Model) {
        Model::Yuv
    }
}

} // verus!
