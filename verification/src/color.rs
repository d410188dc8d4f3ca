//! Colours and fills.

use crate::number::Scalar;
use vstd::prelude::*;

verus! {

/// A colour by hue, saturation, lightness and opacity.
#[derive(Clone, Copy, Debug, PartialEq)]
pub struct Hsla<N> {
    pub h: N,
    pub s: N,
    pub l: N,
    pub a: N,
}

impl<N: Scalar> Hsla<N> {
    pub open spec fn zero_spec() -> Self {
        Hsla { h: N::zero_spec(), s: N::zero_spec(), l: N::zero_spec(), a: N::zero_spec() }
    }

    /// Black without any opacity.
    pub fn zero() -> (r: Self)
        ensures
            r == Self::zero_spec(),
    {
        Hsla { h: N::zero(), s: N::zero(), l: N::zero(), a: N::zero() }
    }
}

/// What a background is filled with.
#[derive(Clone, Copy, Debug, PartialEq, Eq, Structural)]
pub enum BackgroundTag {
    Solid,
    LinearGradient,
    PatternSlash,
    Checkerboard,
}

/// The space in which a gradient is interpolated.
#[derive(Clone, Copy, Debug, PartialEq, Eq, Structural)]
pub enum ColorSpace {
    Srgb,
    Oklab,
}

/// A colour at a position of a gradient.
#[derive(Clone, Copy, Debug, PartialEq)]
pub struct LinearColorStop<N> {
    pub color: Hsla<N>,
    pub percentage: N,
}

/// A fill: a colour, a gradient or a pattern.
#[derive(Clone, Copy, Debug, PartialEq)]
pub struct Background<N> {
    pub tag: BackgroundTag,
    pub color_space: ColorSpace,
    pub solid: Hsla<N>,
    pub gradient_angle_or_pattern_height: N,
    pub from: LinearColorStop<N>,
    pub to: LinearColorStop<N>,
}

impl<N: Scalar> Background<N> {
    pub open spec fn zero_spec() -> Self {
        let stop = LinearColorStop { color: Hsla::zero_spec(), percentage: N::zero_spec() };
        Background {
            tag: BackgroundTag::Solid,
            color_space: ColorSpace::Srgb,
            solid: Hsla::zero_spec(),
            gradient_angle_or_pattern_height: N::zero_spec(),
            from: stop,
            to: stop,
        }
    }

    /// A solid fill without any opacity.
    pub fn zero() -> (r: Self)
        ensures
            r == Self::zero_spec(),
    {
        let stop = LinearColorStop { color: Hsla::zero(), percentage: N::zero() };
        Background {
            tag: BackgroundTag::Solid,
            color_space: ColorSpace::Srgb,
            solid: Hsla::zero(),
            gradient_angle_or_pattern_height: N::zero(),
            from: stop,
            to: stop,
        }
    }
}

/// A colour of zeros has no opacity, and a fill of zeros is of such a colour.
pub proof fn lemma_zero_is_no_colour<N: Scalar>()
    ensures
        Hsla::<N>::zero_spec().h == N::zero_spec(),
        Hsla::<N>::zero_spec().s == N::zero_spec(),
        Hsla::<N>::zero_spec().l == N::zero_spec(),
        Hsla::<N>::zero_spec().a == N::zero_spec(),
        Background::<N>::zero_spec().tag is Solid,
        Background::<N>::zero_spec().color_space is Srgb,
        Background::<N>::zero_spec().solid == Hsla::<N>::zero_spec(),
        Background::<N>::zero_spec().gradient_angle_or_pattern_height == N::zero_spec(),
        Background::<N>::zero_spec().from.color == Hsla::<N>::zero_spec(),
        Background::<N>::zero_spec().from.percentage == N::zero_spec(),
        Background::<N>::zero_spec().to == Background::<N>::zero_spec().from,
{
}

} // verus!
