//! Circular hue types, measured in degrees.
//!
//! A hue is a point on a circle where `0` and `360` degrees coincide.  Each
//! type stores the raw angle it was given and normalizes on demand: to the
//! half-open interval `(-180, 180]` with [`normalize_angle`], or to
//! `[0, 360)` with [`normalize_angle_positive`].  Over the exact scalar
//! type both normalizations are exact: the result differs from the input by
//! a whole number of turns.

use vstd::prelude::*;
use vstd::arithmetic::div_mod::{lemma_fundamental_div_mod, lemma_fundamental_div_mod_converse};
use crate::rat::{
    Rat, norm, eqv, le_pair, lt_pair, lemma_norm_props, lemma_eqv_order, rat_from_wide,
};

verus! {

/// Floor of `a / b` for positive `b`; spec division is Euclidean, which
/// rounds toward negative infinity for positive divisors.
pub open spec fn floor_div(a: int, b: int) -> int
    recommends
        b >= 1,
{
    a / b
}

/// Ceiling of `a / b` for positive `b`.
pub open spec fn ceil_div(a: int, b: int) -> int
    recommends
        b >= 1,
{
    (a + b - 1) / b
}

/// The floor rounds down by less than one divisor.
proof fn lemma_floor_div_bounds(a: int, b: int)
    requires
        b >= 1,
    ensures
        b * floor_div(a, b) <= a < b * floor_div(a, b) + b,
{
    lemma_fundamental_div_mod(a, b);
}

/// The ceiling rounds up by less than one divisor.
proof fn lemma_ceil_div_bounds(a: int, b: int)
    requires
        b >= 1,
    ensures
        b * (ceil_div(a, b) - 1) < a <= b * ceil_div(a, b),
{
    let c = ceil_div(a, b);
    lemma_fundamental_div_mod(a + b - 1, b);
    let rr = (a + b - 1) % b;
    assert(a + b - 1 == b * c + rr);
    assert(b * (c - 1) == b * c - b) by (nonlinear_arith);
}

/// The ceiling agrees with negated floor division of the negation.
proof fn lemma_ceil_div_neg(a: int, b: int)
    requires
        b >= 1,
    ensures
        ceil_div(a, b) == -((-a) / b),
{
    lemma_fundamental_div_mod(-a, b);
    let q = (-a) / b;
    let rr = (-a) % b;
    assert(-a == b * q + rr);
    // a + b - 1 == b * (-q) + (b - 1 - rr), with the remainder in [0, b).
    assert(a + b - 1 == (-q) * b + (b - 1 - rr)) by (nonlinear_arith)
        requires
            -a == b * q + rr,
    ;
    lemma_fundamental_div_mod_converse(a + b - 1, b, -q, b - 1 - rr);
}

/// Floor division on machine integers.
fn floor_div_exec(a: i128, b: i128) -> (r: i128)
    requires
        1 <= b <= 0x1000_0000_0000_0000_0000_0000_0000_0000,
        -0x1000_0000_0000_0000_0000_0000_0000_0000 <= a
            <= 0x1000_0000_0000_0000_0000_0000_0000_0000,
    ensures
        r == floor_div(a as int, b as int),
{
    if a >= 0 {
        let q = (a as u128) / (b as u128);
        q as i128
    } else {
        let q = (((-a) as u128) + (b as u128) - 1) / (b as u128);
        proof {
            lemma_ceil_div_neg(-(a as int), b as int);
            assert(q as int == ceil_div(-(a as int), b as int));
            assert(floor_div(a as int, b as int) == -ceil_div(-(a as int), b as int));
            lemma_ceil_div_bounds(-(a as int), b as int);
            lemma_div_small_quotient(-(a as int), b as int, q as int);
        }
        -(q as i128)
    }
}

/// Ceiling division on machine integers.
fn ceil_div_exec(a: i128, b: i128) -> (r: i128)
    requires
        1 <= b <= 0x1000_0000_0000_0000_0000_0000_0000_0000,
        -0x1000_0000_0000_0000_0000_0000_0000_0000 <= a
            <= 0x1000_0000_0000_0000_0000_0000_0000_0000,
    ensures
        r == ceil_div(a as int, b as int),
{
    if a >= 0 {
        let q = ((a as u128) + (b as u128) - 1) / (b as u128);
        proof {
            lemma_ceil_div_bounds(a as int, b as int);
            lemma_div_small_quotient(a as int, b as int, q as int);
        }
        q as i128
    } else {
        let q = ((-a) as u128) / (b as u128);
        proof {
            lemma_ceil_div_neg(a as int, b as int);
        }
        -(q as i128)
    }
}

/// A nonnegative quotient is no larger than its nonnegative dividend.
proof fn lemma_div_small_quotient(a: int, b: int, q: int)
    requires
        b >= 1,
        a >= 0,
        q == ceil_div(a, b),
    ensures
        0 <= q <= a,
{
    lemma_ceil_div_bounds(a, b);
    if q < 0 {
        assert(b * q <= q) by (nonlinear_arith)
            requires
                b >= 1,
                q < 0,
        ;
    }
    if q > a {
        assert(b * (q - 1) >= q - 1) by (nonlinear_arith)
            requires
                b >= 1,
                q >= 1,
        ;
    }
}

/// The whole turns subtracted to center an angle in `(-180, 180]`.
pub open spec fn turns_centered(p: (int, int)) -> int {
    ceil_div(p.0 - 180 * p.1, 360 * p.1)
}

/// What `normalize_angle` returns: the angle minus `turns_centered` whole
/// turns, in canonical form.
pub open spec fn normalize_angle_spec(p: (int, int)) -> (int, int) {
    norm((p.0 - 360 * turns_centered(p) * p.1, p.1))
}

/// The whole turns subtracted to place an angle in `[0, 360)`.
pub open spec fn turns_positive(p: (int, int)) -> int {
    floor_div(p.0, 360 * p.1)
}

/// What `normalize_angle_positive` returns: the angle minus
/// `turns_positive` whole turns, in canonical form.
pub open spec fn normalize_angle_positive_spec(p: (int, int)) -> (int, int) {
    norm((p.0 - 360 * turns_positive(p) * p.1, p.1))
}

/// Normalizes an angle in degrees into the half-open interval `(-180, 180]`
/// by subtracting a whole number of turns.
pub fn normalize_angle(deg: Rat) -> (r: Rat)
    requires
        deg@.1 <= 0x20_0000_0000_0000,
    ensures
        r@ == normalize_angle_spec(deg@),
        r.canonical(),
        lt_pair((-180int, 1int), r@),
        le_pair(r@, (180int, 1int)),
{
    proof {
        use_type_invariant(&deg);
        deg.lemma_canonical();
    }
    let num = deg.num() as i128;
    let den = deg.den() as i128;
    let a = num - 180 * den;
    let b = 360 * den;
    let m = ceil_div_exec(a, b);
    proof {
        lemma_ceil_div_bounds(a as int, b as int);
        assert((b as int) * ((m as int) - 1) == (b as int) * (m as int) - b) by (nonlinear_arith);
        assert((b as int) * (m as int) < (a as int) + b);
        assert(360 * (m as int) * (den as int) == b as int * (m as int)) by (nonlinear_arith)
            requires
                b == 360 * den,
        ;
    }
    let bm = b * m;
    let rn = num - bm;
    proof {
        assert(-180 * (den as int) < (rn as int));
        assert((rn as int) <= 180 * (den as int));
        lemma_norm_props(rn as int, den as int);
        lemma_range_transfer(rn as int, den as int, -180);
        lemma_range_transfer(rn as int, den as int, 180);
    }
    rat_from_wide(rn, den)
}

/// Normalizes an angle in degrees into `[0, 360)` by subtracting a whole
/// number of turns.
pub fn normalize_angle_positive(deg: Rat) -> (r: Rat)
    requires
        deg@.1 <= 0x20_0000_0000_0000,
    ensures
        r@ == normalize_angle_positive_spec(deg@),
        r.canonical(),
        le_pair((0int, 1int), r@),
        lt_pair(r@, (360int, 1int)),
{
    proof {
        use_type_invariant(&deg);
        deg.lemma_canonical();
    }
    let num = deg.num() as i128;
    let den = deg.den() as i128;
    let b = 360 * den;
    let m = floor_div_exec(num, b);
    proof {
        lemma_floor_div_bounds(num as int, b as int);
        assert(360 * (m as int) * (den as int) == b as int * (m as int)) by (nonlinear_arith)
            requires
                b == 360 * den,
        ;
    }
    let bm = b * m;
    let rn = num - bm;
    proof {
        assert(0 <= (rn as int));
        assert((rn as int) < 360 * (den as int));
        lemma_norm_props(rn as int, den as int);
        lemma_range_transfer(rn as int, den as int, 0);
        lemma_range_transfer(rn as int, den as int, 360);
    }
    rat_from_wide(rn, den)
}

/// Order against a whole number carries over from a raw pair to its
/// canonical form.
proof fn lemma_range_transfer(n: int, d: int, c: int)
    requires
        d >= 1,
    ensures
        lt_pair((c, 1int), (n, d)) ==> lt_pair((c, 1int), norm((n, d))),
        lt_pair((n, d), (c, 1int)) ==> lt_pair(norm((n, d)), (c, 1int)),
        le_pair((c, 1int), (n, d)) ==> le_pair((c, 1int), norm((n, d))),
        le_pair((n, d), (c, 1int)) ==> le_pair(norm((n, d)), (c, 1int)),
{
    lemma_norm_props(n, d);
    assert(eqv(norm((n, d)), (n, d)));
    lemma_eqv_order((c, 1int), (c, 1int), (n, d), norm((n, d)));
    lemma_eqv_order((n, d), norm((n, d)), (c, 1int), (c, 1int));
}

/// A hue type for the CIECAM02 family of color spaces.
#[derive(Clone, Copy, Debug)]
pub struct CamHue {
    degrees: Rat,
}

/// A hue type for the CIE L*a*b* family of color spaces.
#[derive(Clone, Copy, Debug)]
pub struct LabHue {
    degrees: Rat,
}

/// A hue type for the RGB family of color spaces.
#[derive(Clone, Copy, Debug)]
pub struct RgbHue {
    degrees: Rat,
}

impl View for CamHue {
    type V = (int, int);

    closed spec fn view(&self) -> (int, int) {
        self.degrees@
    }
}

impl View for LabHue {
    type V = (int, int);

    closed spec fn view(&self) -> (int, int) {
        self.degrees@
    }
}

impl View for RgbHue {
    type V = (int, int);

    closed spec fn view(&self) -> (int, int) {
        self.degrees@
    }
}

impl CamHue {
    /// Creates a new hue from degrees; the raw angle is kept as given.
    pub fn from_degrees(degrees: Rat) -> (r: CamHue)
        ensures
            r@ == degrees@,
    {
        CamHue { degrees }
    }

    /// The raw angle, without normalization.
    pub fn to_raw_degrees(self) -> (r: Rat)
        ensures
            r@ == self@,
    {
        self.degrees
    }

    /// The angle as degrees in `(-180, 180]`.
    pub fn to_degrees(self) -> (r: Rat)
        requires
            self@.1 <= 0x20_0000_0000_0000,
        ensures
            r@ == normalize_angle_spec(self@),
            lt_pair((-180int, 1int), r@),
            le_pair(r@, (180int, 1int)),
    {
        normalize_angle(self.degrees)
    }

    /// The angle as positive degrees in `[0, 360)`.
    pub fn to_positive_degrees(self) -> (r: Rat)
        requires
            self@.1 <= 0x20_0000_0000_0000,
        ensures
            r@ == normalize_angle_positive_spec(self@),
            le_pair((0int, 1int), r@),
            lt_pair(r@, (360int, 1int)),
    {
        normalize_angle_positive(self.degrees)
    }
}

impl LabHue {
    /// Creates a new hue from degrees; the raw angle is kept as given.
    pub fn from_degrees(degrees: Rat) -> (r: LabHue)
        ensures
            r@ == degrees@,
    {
        LabHue { degrees }
    }

    /// The raw angle, without normalization.
    pub fn to_raw_degrees(self) -> (r: Rat)
        ensures
            r@ == self@,
    {
        self.degrees
    }

    /// The angle as degrees in `(-180, 180]`.
    pub fn to_degrees(self) -> (r: Rat)
        requires
            self@.1 <= 0x20_0000_0000_0000,
        ensures
            r@ == normalize_angle_spec(self@),
            lt_pair((-180int, 1int), r@),
            le_pair(r@, (180int, 1int)),
    {
        normalize_angle(self.degrees)
    }

    /// The angle as positive degrees in `[0, 360)`.
    pub fn to_positive_degrees(self) -> (r: Rat)
        requires
            self@.1 <= 0x20_0000_0000_0000,
        ensures
            r@ == normalize_angle_positive_spec(self@),
            le_pair((0int, 1int), r@),
            lt_pair(r@, (360int, 1int)),
    {
        normalize_angle_positive(self.degrees)
    }
}

impl RgbHue {
    /// Creates a new hue from degrees; the raw angle is kept as given.
    pub fn from_degrees(degrees: Rat) -> (r: RgbHue)
        ensures
            r@ == degrees@,
    {
        RgbHue { degrees }
    }

    /// The raw angle, without normalization.
    pub fn to_raw_degrees(self) -> (r: Rat)
        ensures
            r@ == self@,
    {
        self.degrees
    }

    /// The angle as degrees in `(-180, 180]`.
    pub fn to_degrees(self) -> (r: Rat)
        requires
            self@.1 <= 0x20_0000_0000_0000,
        ensures
            r@ == normalize_angle_spec(self@),
            lt_pair((-180int, 1int), r@),
            le_pair(r@, (180int, 1int)),
    {
        normalize_angle(self.degrees)
    }

    /// The angle as positive degrees in `[0, 360)`.
    pub fn to_positive_degrees(self) -> (r: Rat)
        requires
            self@.1 <= 0x20_0000_0000_0000,
        ensures
            r@ == normalize_angle_positive_spec(self@),
            le_pair((0int, 1int), r@),
            lt_pair(r@, (360int, 1int)),
    {
        normalize_angle_positive(self.degrees)
    }
}

} // verus!
