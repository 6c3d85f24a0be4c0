//! The one capability the interpolation engine requires of its element type:
//! blending two values by a factor from the unit interval.

use vstd::prelude::*;
use crate::rat::{
    Rat, norm, fits_i64, canonical_pair, add_pair, sub_pair, mul_pair, lemma_norm_props,
    lemma_norm_canonical_id, lemma_canonical_unique, lemma_pos_prod,
};

verus! {

/// A value that can be blended linearly with another value of the same type.
///
/// The factor is handed over as a canonical rational, pre-clamped by the
/// caller to the unit interval `[0, 1]`.  `mix_spec` is the mathematical
/// meaning of the blend; `mix_ok` is the machine-limit guard under which the
/// executable `mix` is defined; `wf` says when a value is well-formed (its
/// scalars canonical), which every exec-held value is.  The two proof
/// obligations pin the boundary behaviour every implementation must have: a
/// factor of zero keeps the first value, a factor of one yields the second.
pub trait Mix: Sized + Copy {
    /// A well-formed value; every value built by executable code is.
    spec fn wf(self) -> bool;

    /// The mathematical result of blending `self` with `other` by `factor`,
    /// given as a view pair (numerator, denominator).
    spec fn mix_spec(self, other: Self, factor: (int, int)) -> Self;

    /// Whether the machine computation of the blend stays within its integer
    /// ranges for these operands.
    spec fn mix_ok(self, other: Self, factor: (int, int)) -> bool;

    /// A factor of zero keeps the first value unchanged.
    proof fn lemma_mix_zero(self, other: Self)
        requires
            self.wf(),
            other.wf(),
        ensures
            self.mix_spec(other, (0int, 1int)) == self,
    ;

    /// A factor of one yields the second value unchanged.
    proof fn lemma_mix_one(self, other: Self)
        requires
            self.wf(),
            other.wf(),
        ensures
            self.mix_spec(other, (1int, 1int)) == other,
    ;

    /// Blends `self` with `other` by `factor`.
    fn mix(&self, other: &Self, factor: Rat) -> (r: Self)
        requires
            factor.canonical(),
            crate::rat::in_unit(factor@),
            self.mix_ok(*other, factor@),
        ensures
            r == self.mix_spec(*other, factor@),
            r.wf(),
    ;
}

/// The linear blend of two scalars: `a + f * (b - a)`, normalized at each
/// step exactly as the machine computes it.
pub open spec fn blend_pair(a: (int, int), b: (int, int), f: (int, int)) -> (int, int) {
    norm(add_pair(a, norm(mul_pair(f, norm(sub_pair(b, a))))))
}

/// The machine-limit guard for `blend_pair`.
pub open spec fn blend_ok(a: (int, int), b: (int, int), f: (int, int)) -> bool {
    &&& fits_i64(norm(sub_pair(b, a)))
    &&& fits_i64(norm(mul_pair(f, norm(sub_pair(b, a)))))
    &&& fits_i64(blend_pair(a, b, f))
}

/// Blends two scalars: `a + f * (b - a)`.
pub fn blend(a: &Rat, b: &Rat, f: &Rat) -> (r: Rat)
    requires
        blend_ok(a@, b@, f@),
    ensures
        r@ == blend_pair(a@, b@, f@),
        r.canonical(),
{
    a.add(&f.mul(&b.sub(a)))
}

/// Blending by zero returns the first scalar.
pub proof fn lemma_blend_zero(a: (int, int), b: (int, int))
    requires
        canonical_pair(a),
        canonical_pair(b),
    ensures
        blend_pair(a, b, (0int, 1int)) == a,
{
    lemma_pos_prod(b.1, a.1);
    lemma_norm_props(sub_pair(b, a).0, sub_pair(b, a).1);
    let s = norm(sub_pair(b, a));
    let m = mul_pair((0int, 1int), s);
    assert(m.0 == 0 && m.1 == s.1) by {
        assert(m.0 == 0 * s.0);
        assert(m.1 == 1 * s.1);
    }
    lemma_norm_props(0, s.1);
    assert(norm(m) == (0int, 1int));
    let x = add_pair(a, (0int, 1int));
    assert(x.0 == a.0 && x.1 == a.1) by {
        assert(x.0 == a.0 * 1 + 0 * a.1);
        assert(x.1 == a.1 * 1);
    }
    lemma_norm_canonical_id(a);
    assert(blend_pair(a, b, (0int, 1int)) == norm((a.0, a.1)));
}

/// Blending by one returns the second scalar.
pub proof fn lemma_blend_one(a: (int, int), b: (int, int))
    requires
        canonical_pair(a),
        canonical_pair(b),
    ensures
        blend_pair(a, b, (1int, 1int)) == b,
{
    lemma_pos_prod(b.1, a.1);
    lemma_norm_props(sub_pair(b, a).0, sub_pair(b, a).1);
    let s = norm(sub_pair(b, a));
    assert(mul_pair((1int, 1int), s) == s);
    lemma_norm_canonical_id(s);
    let x = add_pair(a, s);
    lemma_pos_prod(a.1, s.1);
    lemma_norm_props(x.0, x.1);
    // x has the value of b: x = a + (b - a).
    assert(x.0 * b.1 == b.0 * x.1) by (nonlinear_arith)
        requires
            x.0 == a.0 * s.1 + s.0 * a.1,
            x.1 == a.1 * s.1,
            s.0 * (b.1 * a.1) == (b.0 * a.1 - a.0 * b.1) * s.1,
    ;
    assert(norm(x).0 * b.1 == b.0 * norm(x).1) by (nonlinear_arith)
        requires
            norm(x).0 * x.1 == x.0 * norm(x).1,
            x.0 * b.1 == b.0 * x.1,
            x.1 >= 1,
    ;
    lemma_canonical_unique(norm(x), b);
}

} // verus!
