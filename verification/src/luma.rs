//! A single-channel luminance value over the exact scalar type.

use vstd::prelude::*;
use crate::rat::{Rat, rat_of, clamp01_pair, lemma_rat_of};
use crate::mix::{Mix, blend, blend_pair, blend_ok, lemma_blend_zero, lemma_blend_one};

verus! {

/// A luminance value: one lightness channel.
#[derive(Clone, Copy, PartialEq, Debug)]
pub struct Luma {
    /// The lightness channel.
    pub luma: Rat,
}

impl Luma {
    /// Creates a luminance value.
    pub fn new(luma: Rat) -> (r: Luma)
        ensures
            r.luma == luma,
    {
        Luma { luma }
    }

    /// Converts to a `(luma,)` tuple.
    pub fn into_components(self) -> (r: (Rat,))
        ensures
            r.0 == self.luma,
    {
        (self.luma,)
    }

    /// Converts from a `(luma,)` tuple.
    pub fn from_components(components: (Rat,)) -> (r: Luma)
        ensures
            r.luma == components.0,
    {
        Luma { luma: components.0 }
    }
}

impl Mix for Luma {
    /// The channel is canonical; true of every exec-built value.
    open spec fn wf(self) -> bool {
        self.luma.canonical()
    }

    /// Linear blend of the channel, with the factor clamped to `[0, 1]`
    /// first.
    open spec fn mix_spec(self, other: Luma, factor: (int, int)) -> Luma {
        Luma { luma: rat_of(blend_pair(self.luma@, other.luma@, clamp01_pair(factor))) }
    }

    open spec fn mix_ok(self, other: Luma, factor: (int, int)) -> bool {
        blend_ok(self.luma@, other.luma@, clamp01_pair(factor))
    }

    proof fn lemma_mix_zero(self, other: Luma) {
        assert(clamp01_pair((0int, 1int)) == (0int, 1int));
        lemma_blend_zero(self.luma@, other.luma@);
        lemma_rat_of(self.luma);
    }

    proof fn lemma_mix_one(self, other: Luma) {
        assert(clamp01_pair((1int, 1int)) == (1int, 1int));
        lemma_blend_one(self.luma@, other.luma@);
        lemma_rat_of(other.luma);
    }

    fn mix(&self, other: &Luma, factor: Rat) -> (r: Luma) {
        let f = factor.clamp_unit();
        let l = blend(&self.luma, &other.luma, &f);
        proof {
            lemma_rat_of(l);
        }
        Luma { luma: l }
    }
}

} // verus!
