//! A linear RGB value over the exact scalar type.

use vstd::prelude::*;
use crate::rat::{Rat, rat_of, clamp01_pair, lemma_rat_of};
use crate::mix::{Mix, blend, blend_pair, blend_ok, lemma_blend_zero, lemma_blend_one};

verus! {

/// A linear (non-gamma-encoded) RGB value with three channels.
#[derive(Clone, Copy, PartialEq, Debug)]
pub struct LinSrgb {
    /// The red channel.
    pub red: Rat,
    /// The green channel.
    pub green: Rat,
    /// The blue channel.
    pub blue: Rat,
}

impl LinSrgb {
    /// Creates a linear RGB value.
    pub fn new(red: Rat, green: Rat, blue: Rat) -> (r: LinSrgb)
        ensures
            r.red == red,
            r.green == green,
            r.blue == blue,
    {
        LinSrgb { red, green, blue }
    }

    /// Converts to a `(red, green, blue)` tuple.
    pub fn into_components(self) -> (r: (Rat, Rat, Rat))
        ensures
            r == (self.red, self.green, self.blue),
    {
        (self.red, self.green, self.blue)
    }

    /// Converts from a `(red, green, blue)` tuple.
    pub fn from_components(components: (Rat, Rat, Rat)) -> (r: LinSrgb)
        ensures
            r.red == components.0,
            r.green == components.1,
            r.blue == components.2,
    {
        LinSrgb { red: components.0, green: components.1, blue: components.2 }
    }
}

impl Mix for LinSrgb {
    /// All three channels are canonical; true of every exec-built value.
    open spec fn wf(self) -> bool {
        self.red.canonical() && self.green.canonical() && self.blue.canonical()
    }

    /// Componentwise linear blend, with the factor clamped to `[0, 1]`
    /// first.
    open spec fn mix_spec(self, other: LinSrgb, factor: (int, int)) -> LinSrgb {
        LinSrgb {
            red: rat_of(blend_pair(self.red@, other.red@, clamp01_pair(factor))),
            green: rat_of(blend_pair(self.green@, other.green@, clamp01_pair(factor))),
            blue: rat_of(blend_pair(self.blue@, other.blue@, clamp01_pair(factor))),
        }
    }

    open spec fn mix_ok(self, other: LinSrgb, factor: (int, int)) -> bool {
        &&& blend_ok(self.red@, other.red@, clamp01_pair(factor))
        &&& blend_ok(self.green@, other.green@, clamp01_pair(factor))
        &&& blend_ok(self.blue@, other.blue@, clamp01_pair(factor))
    }

    proof fn lemma_mix_zero(self, other: LinSrgb) {
        assert(clamp01_pair((0int, 1int)) == (0int, 1int));
        lemma_blend_zero(self.red@, other.red@);
        lemma_blend_zero(self.green@, other.green@);
        lemma_blend_zero(self.blue@, other.blue@);
        lemma_rat_of(self.red);
        lemma_rat_of(self.green);
        lemma_rat_of(self.blue);
    }

    proof fn lemma_mix_one(self, other: LinSrgb) {
        assert(clamp01_pair((1int, 1int)) == (1int, 1int));
        lemma_blend_one(self.red@, other.red@);
        lemma_blend_one(self.green@, other.green@);
        lemma_blend_one(self.blue@, other.blue@);
        lemma_rat_of(other.red);
        lemma_rat_of(other.green);
        lemma_rat_of(other.blue);
    }

    fn mix(&self, other: &LinSrgb, factor: Rat) -> (r: LinSrgb) {
        let f = factor.clamp_unit();
        let red = blend(&self.red, &other.red, &f);
        let green = blend(&self.green, &other.green, &f);
        let blue = blend(&self.blue, &other.blue, &f);
        proof {
            lemma_rat_of(red);
            lemma_rat_of(green);
            lemma_rat_of(blue);
        }
        LinSrgb { red, green, blue }
    }
}

} // verus!
