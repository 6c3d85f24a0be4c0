//! Transparency for any color type: a color paired with an alpha component.

use vstd::prelude::*;
use crate::rat::Rat;
use crate::hues::CamHue;
use crate::jch::Jch;
use crate::luma::Luma;

verus! {

/// A color with an added transparency component.
#[derive(Clone, Copy, Debug)]
pub struct Alpha<C, T> {
    /// The color.
    pub color: C,
    /// The transparency component, from opaque to fully transparent.
    pub alpha: T,
}

impl Alpha<Jch, Rat> {
    /// Creates a JCh color with transparency, for the default white point.
    pub fn new(j: Rat, chroma: Rat, hue: CamHue, alpha: Rat) -> (r: Alpha<Jch, Rat>)
        ensures
            r.color == (Jch { j, chroma, hue }),
            r.alpha == alpha,
    {
        Alpha { color: Jch::new(j, chroma, hue), alpha }
    }

    /// Creates a JCh color with transparency under a caller-chosen white
    /// point.
    pub fn with_wp(j: Rat, chroma: Rat, hue: CamHue, alpha: Rat) -> (r: Alpha<Jch, Rat>)
        ensures
            r.color == (Jch { j, chroma, hue }),
            r.alpha == alpha,
    {
        Alpha { color: Jch::with_wp(j, chroma, hue), alpha }
    }

    /// Converts to a `(J, C, h, alpha)` tuple.
    pub fn into_components(self) -> (r: (Rat, Rat, CamHue, Rat))
        ensures
            r == (self.color.j, self.color.chroma, self.color.hue, self.alpha),
    {
        (self.color.j, self.color.chroma, self.color.hue, self.alpha)
    }

    /// Converts from a `(J, C, h, alpha)` tuple.
    pub fn from_components(components: (Rat, Rat, CamHue, Rat)) -> (r: Alpha<Jch, Rat>)
        ensures
            r.color == (Jch { j: components.0, chroma: components.1, hue: components.2 }),
            r.alpha == components.3,
    {
        Alpha {
            color: Jch::with_wp(components.0, components.1, components.2),
            alpha: components.3,
        }
    }
}

impl Alpha<Luma, Rat> {
    /// Creates a luminance value with transparency.
    pub fn new(luma: Rat, alpha: Rat) -> (r: Alpha<Luma, Rat>)
        ensures
            r.color == (Luma { luma }),
            r.alpha == alpha,
    {
        Alpha { color: Luma::new(luma), alpha }
    }

    /// Converts to a `(luma, alpha)` tuple.
    pub fn into_components(self) -> (r: (Rat, Rat))
        ensures
            r == (self.color.luma, self.alpha),
    {
        (self.color.luma, self.alpha)
    }

    /// Converts from a `(luma, alpha)` tuple.
    pub fn from_components(components: (Rat, Rat)) -> (r: Alpha<Luma, Rat>)
        ensures
            r.color == (Luma { luma: components.0 }),
            r.alpha == components.1,
    {
        Alpha { color: Luma::new(components.0), alpha: components.1 }
    }
}

} // verus!
