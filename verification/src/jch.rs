//! The CIECAM02 JCh color space, modeled over the exact scalar type:
//! lightness, chroma, and a circular hue.

use vstd::prelude::*;
use crate::rat::Rat;
use crate::hues::CamHue;

verus! {

/// A cylindrical color of the CIE Color Appearance Model: lightness `j`,
/// `chroma`, and `hue`.
#[derive(Clone, Copy, Debug)]
pub struct Jch {
    /// The correlate of lightness.
    pub j: Rat,
    /// The correlate of chroma.
    pub chroma: Rat,
    /// The correlate of hue.
    pub hue: CamHue,
}

impl Jch {
    /// Creates a JCh color for the default white point.
    pub fn new(j: Rat, chroma: Rat, hue: CamHue) -> (r: Jch)
        ensures
            r.j == j,
            r.chroma == chroma,
            r.hue == hue,
    {
        Jch { j, chroma, hue }
    }

    /// Creates a JCh color under a caller-chosen white point.  The white
    /// point does not enter any computation here, so it carries no runtime
    /// state.
    pub fn with_wp(j: Rat, chroma: Rat, hue: CamHue) -> (r: Jch)
        ensures
            r.j == j,
            r.chroma == chroma,
            r.hue == hue,
    {
        Jch { j, chroma, hue }
    }

    /// Converts to a `(J, C, h)` tuple.
    pub fn into_components(self) -> (r: (Rat, Rat, CamHue))
        ensures
            r == (self.j, self.chroma, self.hue),
    {
        (self.j, self.chroma, self.hue)
    }

    /// Converts from a `(J, C, h)` tuple.
    pub fn from_components(components: (Rat, Rat, CamHue)) -> (r: Jch)
        ensures
            r.j == components.0,
            r.chroma == components.1,
            r.hue == components.2,
    {
        Jch { j: components.0, chroma: components.1, hue: components.2 }
    }

    /// The `j` value minimum.
    pub fn min_j() -> (r: Rat)
        ensures
            r@ == (0int, 1int),
    {
        Rat::zero()
    }

    /// The `j` value maximum.
    pub fn max_j() -> (r: Rat)
        ensures
            r@ == (100int, 1int),
    {
        Rat::from_int(100)
    }

    /// The `chroma` value minimum.
    pub fn min_chroma() -> (r: Rat)
        ensures
            r@ == (0int, 1int),
    {
        Rat::zero()
    }

    /// The `chroma` value maximum.  This value does not cover the entire
    /// color space, but covers enough to be practical for downsampling to
    /// smaller color spaces.
    pub fn max_chroma() -> (r: Rat)
        ensures
            r@ == (128int, 1int),
    {
        Rat::from_int(128)
    }
}

} // verus!
