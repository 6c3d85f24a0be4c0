//! The scalar type of the library: exact rational numbers.
//!
//! A [`Rat`] is a fraction of two machine integers kept in canonical form
//! (positive denominator, numerator and denominator coprime), so that equal
//! values have equal representations.  Its mathematical value is described
//! through the view `(numerator, denominator)` as a pair of unbounded
//! integers, and the spec-level algebra on such pairs below.

use vstd::prelude::*;
use vstd::arithmetic::div_mod::{
    lemma_fundamental_div_mod, lemma_mod_self_0, lemma_small_mod, lemma_add_mod_noop,
    lemma_mul_mod_noop_left, lemma_div_by_self, lemma_div_basics, lemma_div_multiples_vanish,
    lemma_fundamental_div_mod_converse,
};
use vstd::arithmetic::mul::{
    lemma_mul_is_commutative, lemma_mul_is_associative, lemma_mul_inequality,
    lemma_mul_is_distributive_add, lemma_mul_is_distributive_sub,
};

verus! {

/// Greatest common divisor, by Euclid's recursion.
pub open spec fn gcd(a: nat, b: nat) -> nat
    decreases b,
{
    if b == 0 {
        a
    } else {
        gcd(b, a % b)
    }
}

/// Absolute value of an integer, as a natural number.
pub open spec fn iabs(x: int) -> nat {
    if x < 0 {
        (-x) as nat
    } else {
        x as nat
    }
}

/// The gcd divides both arguments and is positive unless both are zero.
pub proof fn lemma_gcd_divides(a: nat, b: nat)
    requires
        a + b >= 1,
    ensures
        gcd(a, b) >= 1,
        a % gcd(a, b) == 0,
        b % gcd(a, b) == 0,
    decreases b,
{
    if b == 0 {
        lemma_mod_self_0(a as int);
        lemma_small_mod(0, a);
    } else {
        let r = a % b;
        lemma_gcd_divides(b, r);
        let g = gcd(b, r) as int;
        // a == (a / b) * b + r, and both summands vanish mod g.
        lemma_fundamental_div_mod(a as int, b as int);
        let q = a as int / b as int;
        assert(a as int == q * (b as int) + r);
        lemma_small_mod(0, g as nat);
        lemma_mul_mod_noop_left(b as int, q, g);
        assert((b as int % g) * q == 0);
        assert((b as int * q) % g == 0);
        lemma_add_mod_noop(b as int * q, r as int, g);
        assert((b as int * q + r) % g == 0);
        lemma_mul_is_commutative(b as int, q);
        assert(a as int % g == 0);
    }
}

/// A positive divisor is no larger than what it divides.
pub proof fn lemma_divisor_le(a: nat, g: nat)
    requires
        a >= 1,
        g >= 1,
        a % g == 0,
    ensures
        g <= a,
{
    if g > a {
        lemma_small_mod(a, g);
    }
}

/// Scaling both arguments down by a common divisor scales the gcd down with them.
pub proof fn lemma_gcd_scale(a: nat, b: nat, k: nat)
    requires
        k >= 1,
        a % k == 0,
        b % k == 0,
    ensures
        gcd(a / k, b / k) == gcd(a, b) / k,
    decreases b,
{
    if b == 0 {
        assert(0nat / k == 0) by {
            lemma_small_mod(0, k);
            lemma_fundamental_div_mod_converse(0, k as int, 0, 0);
        }
    } else {
        let r = a % b;
        lemma_mod_scale(a, b, k);
        lemma_gcd_scale(b, r, k);
        assert((a / k) % (b / k) == r / k);
        assert(gcd(a / k, b / k) == gcd(b / k, r / k));
        assert(gcd(a, b) == gcd(b, r));
    }
}

/// When `k` divides `a` and `b`, it divides `a % b`, and remainders scale by `k`.
proof fn lemma_mod_scale(a: nat, b: nat, k: nat)
    requires
        k >= 1,
        b >= 1,
        a % k == 0,
        b % k == 0,
    ensures
        (a % b) % k == 0,
        (a / k) % (b / k) == (a % b) / k,
        b / k >= 1,
{
    let q = a as int / b as int;
    let r = a as int % b as int;
    lemma_fundamental_div_mod(a as int, b as int);
    lemma_mul_is_commutative(b as int, q);
    assert(a as int == q * (b as int) + r);
    let ak = a as int / k as int;
    let bk = b as int / k as int;
    lemma_exact_div(a as int, k as int);
    lemma_exact_div(b as int, k as int);
    assert(a as int == k as int * ak);
    assert(b as int == k as int * bk);
    // r == a - q*b == k*(ak - q*bk)
    assert(r == k as int * ak - q * (k as int * bk));
    assert(q * (k as int * bk) == k as int * (q * bk)) by {
        lemma_mul_is_associative(q, k as int, bk);
        lemma_mul_is_commutative(q, k as int);
        lemma_mul_is_associative(k as int, q, bk);
    }
    let rk = ak - q * bk;
    assert(r == k as int * rk) by {
        lemma_mul_is_distributive_sub(k as int, ak, q * bk);
    }
    lemma_div_multiples_vanish(rk, k as int);
    assert(r / k as int == rk);
    assert(r % k as int == 0) by {
        lemma_fundamental_div_mod_converse(r, k as int, rk, 0);
    }
    // bounds: 0 <= rk < bk
    assert(bk >= 1) by {
        if bk <= 0 {
            assert(k as int * bk <= 0) by {
                lemma_mul_inequality(bk, 0, k as int);
                lemma_mul_is_commutative(k as int, bk);
            }
        }
    }
    assert(rk >= 0) by {
        if rk < 0 {
            assert(k as int * rk <= k as int * (-1)) by {
                lemma_mul_inequality(rk, -1, k as int);
                lemma_mul_is_commutative(k as int, rk);
                lemma_mul_is_commutative(k as int, -1);
            }
        }
    }
    assert(rk < bk) by {
        if rk >= bk {
            assert(k as int * rk >= k as int * bk) by {
                lemma_mul_inequality(bk, rk, k as int);
                lemma_mul_is_commutative(k as int, rk);
                lemma_mul_is_commutative(k as int, bk);
            }
        }
    }
    // ak == q * bk + rk with 0 <= rk < bk pins div and mod of ak by bk.
    assert(a as int == q * (k as int * bk) + k as int * rk);
    assert(k as int * ak == k as int * (q * bk + rk)) by {
        lemma_mul_is_distributive_add(k as int, q * bk, rk);
        assert(k as int * (q * bk) == q * (k as int * bk)) by {
            lemma_mul_is_associative(k as int, q, bk);
            lemma_mul_is_commutative(k as int, q);
            lemma_mul_is_associative(q, k as int, bk);
        }
    }
    assert(ak == q * bk + rk) by {
        lemma_mul_cancel_left(k as int, ak, q * bk + rk);
    }
    lemma_fundamental_div_mod_converse(ak, bk, q, rk);
}

/// `d >= 1` and `d` divides `x` exactly: `x == d * (x / d)` and `x % d == 0`.
proof fn lemma_exact_div(x: int, d: int)
    requires
        d >= 1,
        x % d == 0,
    ensures
        x == d * (x / d),
{
    lemma_fundamental_div_mod(x, d);
}

/// Multiplication by a positive number on the left can be cancelled.
proof fn lemma_mul_cancel_left(k: int, x: int, y: int)
    requires
        k >= 1,
        k * x == k * y,
    ensures
        x == y,
{
    if x < y {
        lemma_mul_strict_mono(k, x, y);
    }
    if y < x {
        lemma_mul_strict_mono(k, y, x);
    }
}

/// Multiplication by a positive number is strictly monotone.
proof fn lemma_mul_strict_mono(k: int, x: int, y: int) by (nonlinear_arith)
    requires
        k >= 1,
        x < y,
    ensures
        k * x < k * y,
{
}

/// The canonical form of the fraction `n / d`: sign moved to the numerator,
/// both components divided by their gcd.
pub open spec fn norm(p: (int, int)) -> (int, int)
    recommends
        p.1 != 0,
{
    let nn = if p.1 < 0 { -p.0 } else { p.0 };
    let dd = if p.1 < 0 { -p.1 } else { p.1 };
    let g = gcd(iabs(nn), dd as nat) as int;
    (nn / g, dd / g)
}

/// Whether a canonical pair fits the machine representation of `Rat`.
pub open spec fn fits_i64(p: (int, int)) -> bool {
    -0x8000_0000_0000_0000 <= p.0 <= 0x7fff_ffff_ffff_ffff && p.1 <= 0x7fff_ffff_ffff_ffff
}

/// A pair in canonical form: positive denominator, components coprime.
pub open spec fn canonical_pair(p: (int, int)) -> bool {
    p.1 >= 1 && gcd(iabs(p.0), p.1 as nat) == 1
}

/// A canonical pair is its own canonical form.
pub proof fn lemma_norm_canonical_id(p: (int, int))
    requires
        canonical_pair(p),
    ensures
        norm(p) == p,
{
    lemma_div_basics(p.0);
    lemma_div_basics(p.1);
}

/// The value of the pair `a` equals the value of the pair `b`.
pub open spec fn eqv(a: (int, int), b: (int, int)) -> bool
    recommends
        a.1 >= 1,
        b.1 >= 1,
{
    a.0 * b.1 == b.0 * a.1
}

/// The value of the pair `a` is at most the value of the pair `b`.
pub open spec fn le_pair(a: (int, int), b: (int, int)) -> bool
    recommends
        a.1 >= 1,
        b.1 >= 1,
{
    a.0 * b.1 <= b.0 * a.1
}

/// The value of the pair `a` is strictly below the value of the pair `b`.
pub open spec fn lt_pair(a: (int, int), b: (int, int)) -> bool
    recommends
        a.1 >= 1,
        b.1 >= 1,
{
    a.0 * b.1 < b.0 * a.1
}

/// The exact sum of two fractions, before normalization.
pub open spec fn add_pair(a: (int, int), b: (int, int)) -> (int, int) {
    (a.0 * b.1 + b.0 * a.1, a.1 * b.1)
}

/// The exact difference of two fractions, before normalization.
pub open spec fn sub_pair(a: (int, int), b: (int, int)) -> (int, int) {
    (a.0 * b.1 - b.0 * a.1, a.1 * b.1)
}

/// The exact product of two fractions, before normalization.
pub open spec fn mul_pair(a: (int, int), b: (int, int)) -> (int, int) {
    (a.0 * b.0, a.1 * b.1)
}

/// The exact quotient of two fractions, before normalization.  The resulting
/// "denominator" carries the sign of `b`; `norm` moves it to the numerator.
pub open spec fn div_pair(a: (int, int), b: (int, int)) -> (int, int) {
    (a.0 * b.1, a.1 * b.0)
}

/// What `norm` guarantees for a positive denominator: a canonical pair of the
/// same value, componentwise no larger in magnitude, with the sign of `n`.
pub proof fn lemma_norm_props(n: int, d: int)
    requires
        d >= 1,
    ensures
        norm((n, d)).1 >= 1,
        gcd(iabs(norm((n, d)).0), norm((n, d)).1 as nat) == 1,
        norm((n, d)).0 * d == n * norm((n, d)).1,
        iabs(norm((n, d)).0) <= iabs(n),
        norm((n, d)).1 <= d,
        n > 0 ==> norm((n, d)).0 >= 1,
        n == 0 ==> norm((n, d)) == (0int, 1int),
        n < 0 ==> norm((n, d)).0 <= -1,
{
    let a = iabs(n);
    let g = gcd(a, d as nat) as int;
    lemma_gcd_divides(a, d as nat);
    lemma_divisor_le(d as nat, g as nat);
    let nq = n / g;
    let dq = d / g;
    lemma_exact_div(d, g);
    assert(dq >= 1) by {
        if dq <= 0 {
            lemma_mul_inequality(dq, 0, g);
            lemma_mul_is_commutative(g, dq);
        }
    }
    lemma_abs_div(n, g);
    assert(iabs(nq) == a as int / g);
    // magnitude bounds
    assert(a as int / g <= a as int) by {
        if a >= 1 {
            lemma_divisor_le(a, g as nat);
            lemma_exact_div(a as int, g);
            assert(iabs(n) as int % g == 0);
            lemma_div_shrinks(a as int, g);
        } else {
            assert(a == 0);
            lemma_small_mod(0, g as nat);
            lemma_fundamental_div_mod_converse(0, g, 0, 0);
        }
    }
    assert(dq <= d) by {
        lemma_div_shrinks(d, g);
    }
    // same value: nq * d == n * dq, since n == g * nq and d == g * dq
    assert(iabs(n) as int % g == 0);
    lemma_abs_divides(n, g);
    lemma_exact_div(n, g);
    assert(n == g * nq);
    assert(d == g * dq);
    assert(nq * d == n * dq) by {
        assert(nq * (g * dq) == (nq * g) * dq) by {
            lemma_mul_is_associative(nq, g, dq);
        }
        lemma_mul_is_commutative(nq, g);
    }
    // reduced
    assert(gcd(iabs(nq), dq as nat) == 1) by {
        lemma_gcd_scale(a, d as nat, g as nat);
        lemma_div_by_self(g);
        assert(iabs(nq) == a / g as nat);
        assert(dq == (d as nat / g as nat) as int);
    }
    // sign
    if n > 0 {
        assert(nq >= 1) by {
            if nq <= 0 {
                lemma_mul_inequality(nq, 0, g);
                lemma_mul_is_commutative(g, nq);
            }
        }
    }
    if n < 0 {
        assert(nq <= -1) by {
            if nq >= 0 {
                lemma_mul_inequality(0, nq, g);
                lemma_mul_is_commutative(g, nq);
            }
        }
    }
    if n == 0 {
        assert(gcd(0, d as nat) == d as nat) by {
            lemma_small_mod(0, d as nat);
            assert(gcd(0, d as nat) == gcd(d as nat, 0nat % d as nat));
            assert(gcd(d as nat, 0) == d as nat);
        }
        lemma_div_by_self(d);
        assert(nq == 0) by {
            lemma_small_mod(0, d as nat);
            lemma_fundamental_div_mod_converse(0, d, 0, 0);
        }
    }
}

/// Division by a positive divisor of a nonnegative number does not grow it.
proof fn lemma_div_shrinks(x: int, g: int)
    requires
        x >= 0,
        g >= 1,
        x % g == 0,
    ensures
        x / g <= x,
        x / g >= 0,
{
    lemma_exact_div(x, g);
    let q = x / g;
    if q < 0 {
        lemma_mul_inequality(q, 0, g);
        lemma_mul_is_commutative(g, q);
    }
    if q > x {
        assert(g * q >= 1 * q) by {
            lemma_mul_inequality(1, g, q);
            lemma_mul_is_commutative(g, q);
        }
    }
}

/// `g` divides `iabs(n)` exactly when it divides `n`, and the quotients agree
/// up to sign.
proof fn lemma_abs_divides(n: int, g: int)
    requires
        g >= 1,
        iabs(n) as int % g == 0,
    ensures
        n % g == 0,
{
    if n >= 0 {
        assert(iabs(n) as int == n);
    } else {
        let m = iabs(n) as int;
        lemma_exact_div(m, g);
        let q = m / g;
        assert(n == g * (-q)) by {
            lemma_mul_unary_neg(g, q);
        }
        lemma_div_multiples_vanish(-q, g);
        lemma_fundamental_div_mod_converse(n, g, -q, 0);
    }
}

/// Under exact division, taking the absolute value commutes with dividing.
proof fn lemma_abs_div(n: int, g: int)
    requires
        g >= 1,
        iabs(n) as int % g == 0,
    ensures
        iabs(n / g) == iabs(n) as int / g,
{
    let m = iabs(n) as int;
    lemma_exact_div(m, g);
    let q = m / g;
    assert(q >= 0) by {
        if q < 0 {
            lemma_mul_inequality(q, 0, g);
            lemma_mul_is_commutative(g, q);
        }
    }
    lemma_div_multiples_vanish(q, g);
    if n >= 0 {
        assert(n == m);
    } else {
        assert(n == g * (-q)) by {
            lemma_mul_unary_neg(g, q);
        }
        lemma_div_multiples_vanish(-q, g);
        assert(n / g == -q);
        assert(iabs(-q) == q);
    }
}

/// `x * (-y) == -(x * y)`.
proof fn lemma_mul_unary_neg(x: int, y: int)
    ensures
        x * (-y) == -(x * y),
{
    lemma_mul_is_distributive_sub(x, 0, y);
    lemma_mul_is_commutative(x, 0);
}

/// An exact rational number in canonical form.
///
/// The denominator is positive and shares no factor with the numerator, so
/// equal values are representation-equal, and the derived `==` decides value
/// equality.
#[derive(Clone, Copy, PartialEq, Eq, Structural, Debug)]
pub struct Rat {
    num: i64,
    den: i64,
}

impl View for Rat {
    type V = (int, int);

    closed spec fn view(&self) -> (int, int) {
        (self.num as int, self.den as int)
    }
}

impl Rat {
    /// Canonical form: positive denominator, numerator and denominator coprime.
    #[verifier::type_invariant]
    pub closed spec fn inv(self) -> bool {
        self.den >= 1 && gcd(iabs(self.num as int), self.den as nat) == 1
    }

    /// The invariant, phrased over the view for use in contracts.
    pub open spec fn canonical(self) -> bool {
        canonical_pair(self@)
    }

    /// Bridges the type invariant to its statement over the view; combined
    /// with `use_type_invariant`, every exec-held `Rat` is canonical.
    pub proof fn lemma_canonical(&self)
        requires
            self.inv(),
        ensures
            self.canonical(),
    {
    }

    /// The numerator of the canonical form.
    pub fn num(&self) -> (r: i64)
        ensures
            r as int == self@.0,
    {
        self.num
    }

    /// The denominator of the canonical form; always positive.
    pub fn den(&self) -> (r: i64)
        ensures
            r as int == self@.1,
    {
        self.den
    }

    /// The rational `n / d`, reduced to canonical form.  The denominator
    /// must be positive; a negative value carries its sign in the numerator.
    pub fn new(n: i64, d: i64) -> (r: Rat)
        requires
            d >= 1,
        ensures
            r@ == norm((n as int, d as int)),
            r.canonical(),
    {
        proof {
            lemma_norm_props(n as int, d as int);
        }
        rat_from_wide(n as i128, d as i128)
    }

    /// The rational `n / 1`.
    pub fn from_int(n: i64) -> (r: Rat)
        ensures
            r@ == (n as int, 1int),
            r.canonical(),
    {
        proof {
            lemma_norm_props(n as int, 1);
            lemma_gcd_one(iabs(n as int));
        }
        Rat { num: n, den: 1 }
    }

    /// The rational zero.
    pub fn zero() -> (r: Rat)
        ensures
            r@ == (0int, 1int),
            r.canonical(),
    {
        Rat::from_int(0)
    }

    /// The rational one.
    pub fn one() -> (r: Rat)
        ensures
            r@ == (1int, 1int),
            r.canonical(),
    {
        Rat::from_int(1)
    }
}

/// `gcd(a, 1) == 1`.
pub proof fn lemma_gcd_one(a: nat)
    ensures
        gcd(a, 1) == 1,
{
    lemma_small_mod(0, 1);
    assert(a % 1 == 0) by {
        lemma_fundamental_div_mod_converse(a as int, 1, a as int, 0);
    }
    assert(gcd(a, 1) == gcd(1, a % 1));
    assert(gcd(1, 0) == 1);
}

/// Builds a canonical `Rat` from a wide intermediate fraction with a positive
/// denominator, proving that the reduced result fits the machine fields.
pub(crate) fn rat_from_wide(n: i128, d: i128) -> (r: Rat)
    requires
        d >= 1,
        -0x7fff_ffff_ffff_ffff_ffff_ffff_ffff_ffff <= n,
        fits_i64(norm((n as int, d as int))),
    ensures
        r@ == norm((n as int, d as int)),
        r.canonical(),
{
    proof {
        lemma_norm_props(n as int, d as int);
    }
    let neg = n < 0;
    let na: u128 = if neg {
        (-n) as u128
    } else {
        n as u128
    };
    let da: u128 = d as u128;
    assert(na as nat == iabs(n as int));
    let g = gcd_wide(na, da);
    proof {
        lemma_gcd_divides(na as nat, da as nat);
        lemma_abs_div(n as int, g as int);
        lemma_exact_div(d as int, g as int);
        lemma_div_shrinks(d as int, g as int);
        lemma_abs_divides(n as int, g as int);
        lemma_exact_div(n as int, g as int);
    }
    let nr = na / g;
    let dr = da / g;
    assert(nr as nat == iabs(n as int / g as int));
    assert(dr as int == d as int / g as int);
    let num: i64 = if neg {
        proof {
            lemma_norm_props(n as int, d as int);
        }
        (-(nr as i128)) as i64
    } else {
        nr as i64
    };
    let den: i64 = dr as i64;
    assert(num as int == norm((n as int, d as int)).0);
    Rat { num, den }
}

/// Clamps a value into the unit interval `[0, 1]`.
pub open spec fn clamp01_pair(p: (int, int)) -> (int, int)
    recommends
        p.1 >= 1,
{
    if p.0 < 0 {
        (0int, 1int)
    } else if p.1 < p.0 {
        (1int, 1int)
    } else {
        p
    }
}

/// The value of the pair lies in the unit interval `[0, 1]`.
pub open spec fn in_unit(p: (int, int)) -> bool
    recommends
        p.1 >= 1,
{
    0 <= p.0 <= p.1
}

impl Rat {
    /// The exact sum `self + other`.
    pub fn add(&self, other: &Rat) -> (r: Rat)
        requires
            fits_i64(norm(add_pair(self@, other@))),
        ensures
            r@ == norm(add_pair(self@, other@)),
            r.canonical(),
    {
        proof {
            use_type_invariant(self);
            use_type_invariant(other);
            lemma_num_den_prod(self.num as int, other.den as int);
            lemma_num_den_prod(other.num as int, self.den as int);
            lemma_i64_prod_bounds(self.den as int, other.den as int);
            lemma_pos_prod(self.den as int, other.den as int);
        }
        let n = (self.num as i128) * (other.den as i128) + (other.num as i128) * (self.den as i128);
        let d = (self.den as i128) * (other.den as i128);
        rat_from_wide(n, d)
    }

    /// The exact difference `self - other`.
    pub fn sub(&self, other: &Rat) -> (r: Rat)
        requires
            fits_i64(norm(sub_pair(self@, other@))),
        ensures
            r@ == norm(sub_pair(self@, other@)),
            r.canonical(),
    {
        proof {
            use_type_invariant(self);
            use_type_invariant(other);
            lemma_num_den_prod(self.num as int, other.den as int);
            lemma_num_den_prod(other.num as int, self.den as int);
            lemma_i64_prod_bounds(self.den as int, other.den as int);
            lemma_pos_prod(self.den as int, other.den as int);
        }
        let n = (self.num as i128) * (other.den as i128) - (other.num as i128) * (self.den as i128);
        let d = (self.den as i128) * (other.den as i128);
        rat_from_wide(n, d)
    }

    /// The exact product `self * other`.
    pub fn mul(&self, other: &Rat) -> (r: Rat)
        requires
            fits_i64(norm(mul_pair(self@, other@))),
        ensures
            r@ == norm(mul_pair(self@, other@)),
            r.canonical(),
    {
        proof {
            use_type_invariant(self);
            use_type_invariant(other);
            lemma_i64_prod_bounds(self.num as int, other.num as int);
            lemma_i64_prod_bounds(self.den as int, other.den as int);
            lemma_pos_prod(self.den as int, other.den as int);
        }
        let n = (self.num as i128) * (other.num as i128);
        let d = (self.den as i128) * (other.den as i128);
        rat_from_wide(n, d)
    }

    /// The exact quotient `self / other`, for nonzero `other`.
    pub fn div(&self, other: &Rat) -> (r: Rat)
        requires
            other@.0 != 0,
            fits_i64(norm(div_pair(self@, other@))),
        ensures
            r@ == norm(div_pair(self@, other@)),
            r.canonical(),
    {
        proof {
            use_type_invariant(self);
            use_type_invariant(other);
            lemma_i64_prod_bounds(self.num as int, other.den as int);
            lemma_i64_prod_bounds(self.den as int, other.num as int);
            lemma_pos_prod(self.den as int, other.num as int);
            lemma_pos_prod(self.den as int, -(other.num as int));
        }
        let mut n = (self.num as i128) * (other.den as i128);
        let mut d = (self.den as i128) * (other.num as i128);
        if d < 0 {
            n = -n;
            d = -d;
        }
        rat_from_wide(n, d)
    }

    /// Whether `self <= other` as rational values.
    pub fn le(&self, other: &Rat) -> (r: bool)
        ensures
            r == le_pair(self@, other@),
    {
        proof {
            use_type_invariant(self);
            use_type_invariant(other);
            lemma_i64_prod_bounds(self.num as int, other.den as int);
            lemma_i64_prod_bounds(other.num as int, self.den as int);
        }
        (self.num as i128) * (other.den as i128) <= (other.num as i128) * (self.den as i128)
    }

    /// Whether `self < other` as rational values.
    pub fn lt(&self, other: &Rat) -> (r: bool)
        ensures
            r == lt_pair(self@, other@),
    {
        proof {
            use_type_invariant(self);
            use_type_invariant(other);
            lemma_i64_prod_bounds(self.num as int, other.den as int);
            lemma_i64_prod_bounds(other.num as int, self.den as int);
        }
        (self.num as i128) * (other.den as i128) < (other.num as i128) * (self.den as i128)
    }

    /// `self` clamped into the unit interval `[0, 1]`.
    pub fn clamp_unit(&self) -> (r: Rat)
        ensures
            r@ == clamp01_pair(self@),
            r.canonical(),
    {
        proof {
            use_type_invariant(self);
        }
        if self.num < 0 {
            Rat::zero()
        } else if self.den < self.num {
            Rat::one()
        } else {
            *self
        }
    }
}

/// A numerator times a positive denominator stays strictly inside half the
/// 128-bit range, so two such products can be added without overflow.
proof fn lemma_num_den_prod(x: int, y: int) by (nonlinear_arith)
    requires
        -0x8000_0000_0000_0000 <= x <= 0x7fff_ffff_ffff_ffff,
        1 <= y <= 0x7fff_ffff_ffff_ffff,
    ensures
        -0x3fff_ffff_ffff_ffff_8000_0000_0000_0000 <= x * y
            <= 0x3fff_ffff_ffff_ffff_8000_0000_0000_0000,
{
}

/// Products of 64-bit values fit comfortably in 128 bits.
proof fn lemma_i64_prod_bounds(x: int, y: int) by (nonlinear_arith)
    requires
        -0x8000_0000_0000_0000 <= x <= 0x7fff_ffff_ffff_ffff,
        -0x8000_0000_0000_0000 <= y <= 0x7fff_ffff_ffff_ffff,
    ensures
        -0x4000_0000_0000_0000_0000_0000_0000_0000 <= x * y
            <= 0x4000_0000_0000_0000_0000_0000_0000_0000,
{
}

/// A product of positive factors is positive, of a positive and a negative one
/// negative.
pub proof fn lemma_pos_prod(x: int, y: int) by (nonlinear_arith)
    requires
        x >= 1,
    ensures
        y >= 1 ==> x * y >= 1,
        y <= -1 ==> x * y <= -1,
        y == 0 ==> x * y == 0,
        x * y == y * x,
{
}

/// Transitivity and compatibility of the pair order.
pub proof fn lemma_le_trans(a: (int, int), b: (int, int), c: (int, int)) by (nonlinear_arith)
    requires
        a.1 >= 1,
        b.1 >= 1,
        c.1 >= 1,
        le_pair(a, b),
        le_pair(b, c),
    ensures
        le_pair(a, c),
{
}

/// Transitivity of the strict pair order.
pub proof fn lemma_lt_trans(a: (int, int), b: (int, int), c: (int, int)) by (nonlinear_arith)
    requires
        a.1 >= 1,
        b.1 >= 1,
        c.1 >= 1,
        lt_pair(a, b),
        lt_pair(b, c),
    ensures
        lt_pair(a, c),
{
}

/// A strict step followed by a weak step stays strict.
pub proof fn lemma_lt_le_trans(a: (int, int), b: (int, int), c: (int, int)) by (nonlinear_arith)
    requires
        a.1 >= 1,
        b.1 >= 1,
        c.1 >= 1,
        lt_pair(a, b),
        le_pair(b, c),
    ensures
        lt_pair(a, c),
{
}

/// A weak step followed by a strict step stays strict.
pub proof fn lemma_le_lt_trans(a: (int, int), b: (int, int), c: (int, int)) by (nonlinear_arith)
    requires
        a.1 >= 1,
        b.1 >= 1,
        c.1 >= 1,
        le_pair(a, b),
        lt_pair(b, c),
    ensures
        lt_pair(a, c),
{
}

/// Equal values compare equally against everything.
pub proof fn lemma_eqv_order(a: (int, int), a2: (int, int), b: (int, int), b2: (int, int)) by (nonlinear_arith)
    requires
        a.1 >= 1,
        a2.1 >= 1,
        b.1 >= 1,
        b2.1 >= 1,
        eqv(a, a2),
        eqv(b, b2),
    ensures
        le_pair(a, b) == le_pair(a2, b2),
        lt_pair(a, b) == lt_pair(a2, b2),
        eqv(a, b) == eqv(a2, b2),
{
}

/// Bezout coefficients for the gcd.
pub proof fn lemma_bezout(a: nat, b: nat) -> (xy: (int, int))
    ensures
        gcd(a, b) == a * xy.0 + b * xy.1,
    decreases b,
{
    if b == 0 {
        let xy = (1int, 0int);
        assert(a * 1int + b * 0int == a) by (nonlinear_arith);
        xy
    } else {
        let r = a % b;
        let q = a as int / b as int;
        lemma_fundamental_div_mod(a as int, b as int);
        let sub = lemma_bezout(b, r);
        let (x, y) = sub;
        // gcd(a, b) == gcd(b, r) == b * x + r * y, and r == a - q * b.
        let xy = (y, x - q * y);
        assert(b * x + r * y == a * y + b * (x - q * y)) by (nonlinear_arith)
            requires
                r == a - q * b,
        ;
        xy
    }
}

/// A positive value over itself normalizes to one.
pub proof fn lemma_norm_self(q: int)
    requires
        q >= 1,
    ensures
        norm((q, q)) == (1int, 1int),
{
    lemma_mod_self_0(q);
    assert(gcd(q as nat, q as nat) == gcd(q as nat, (q as nat) % (q as nat)));
    assert(gcd(q as nat, 0) == q as nat);
    assert(iabs(q) == q as nat);
    lemma_div_by_self(q);
}

/// Two canonical rationals of equal value are the same object.
pub proof fn lemma_canonical_eq(a: Rat, b: Rat)
    requires
        a.canonical(),
        b.canonical(),
        eqv(a@, b@),
    ensures
        a == b,
{
    lemma_canonical_unique(a@, b@);
    assert(a.num == b.num);
    assert(a.den == b.den);
}

/// Two canonical pairs of equal value are identical: the canonical form is
/// unique.
pub proof fn lemma_canonical_unique(a: (int, int), b: (int, int))
    requires
        a.1 >= 1,
        b.1 >= 1,
        gcd(iabs(a.0), a.1 as nat) == 1,
        gcd(iabs(b.0), b.1 as nat) == 1,
        eqv(a, b),
    ensures
        a == b,
{
    let k = lemma_divides_denominator(a, b);
    let m = lemma_divides_denominator(b, a);
    // b.1 == a.1 * k and a.1 == b.1 * m force k == m == 1.
    assert(b.1 == (b.1 * m) * k);
    assert(m * k == 1) by (nonlinear_arith)
        requires
            b.1 >= 1,
            b.1 == (b.1 * m) * k,
    ;
    assert(k == 1) by (nonlinear_arith)
        requires
            m * k == 1,
            b.1 >= 1,
            a.1 >= 1,
            b.1 == a.1 * k,
    ;
    assert(a.1 == b.1);
    assert(a.0 == b.0) by (nonlinear_arith)
        requires
            a.1 == b.1,
            a.1 >= 1,
            a.0 * b.1 == b.0 * a.1,
    ;
}

/// With `a` canonical and `eqv(a, b)`, the denominator of `a` divides the
/// denominator of `b`; returns the quotient.
proof fn lemma_divides_denominator(a: (int, int), b: (int, int)) -> (k: int)
    requires
        a.1 >= 1,
        b.1 >= 1,
        gcd(iabs(a.0), a.1 as nat) == 1,
        eqv(a, b),
    ensures
        b.1 == a.1 * k,
{
    let xy = lemma_bezout(iabs(a.0), a.1 as nat);
    let (x, y) = xy;
    let n = iabs(a.0) as int;
    assert(n * x + a.1 * y == 1);
    // iabs(a.0) * b.1 == iabs(b.0) * a.1, from eqv and positive denominators.
    let s: int = if a.0 < 0 { -1 } else { 1 };
    assert(n * b.1 == (s * b.0) * a.1) by (nonlinear_arith)
        requires
            a.0 * b.1 == b.0 * a.1,
            s == (if a.0 < 0 { -1int } else { 1int }),
            n == iabs(a.0),
            a.1 >= 1,
            b.1 >= 1,
    ;
    let k = (s * b.0) * x + b.1 * y;
    assert(b.1 == a.1 * k) by (nonlinear_arith)
        requires
            n * x + a.1 * y == 1,
            n * b.1 == (s * b.0) * a.1,
            k == (s * b.0) * x + b.1 * y,
    ;
    k
}

/// The `Rat` whose machine fields hold the components of `p`; meaningful
/// for pairs that fit the machine representation.
pub closed spec fn rat_of(p: (int, int)) -> Rat {
    Rat { num: p.0 as i64, den: p.1 as i64 }
}

/// Every `Rat` is recovered from its own view.
pub proof fn lemma_rat_of(r: Rat)
    ensures
        rat_of(r@) == r,
{
}

/// Euclid's algorithm on wide words.
fn gcd_wide(a0: u128, b0: u128) -> (g: u128)
    ensures
        g as nat == gcd(a0 as nat, b0 as nat),
{
    let mut a = a0;
    let mut b = b0;
    while b != 0
        invariant
            gcd(a as nat, b as nat) == gcd(a0 as nat, b0 as nat),
        decreases b,
    {
        let t = a % b;
        a = b;
        b = t;
    }
    a
}

} // verus!

