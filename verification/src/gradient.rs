//! Linear interpolation between control points.
//!
//! A [`Gradient`] owns a non-empty list of `(position, value)` control
//! points with strictly increasing positions.  Values for arbitrary
//! positions come from [`Gradient::get`]: positions outside the domain are
//! clamped to the nearest end, positions inside are blended between the two
//! bracketing control points.  The domain can be restricted without copying
//! through [`Slice`], and [`Take`] walks a fixed number of evenly spaced
//! samples from either end.

use vstd::prelude::*;
use crate::rat::{
    Rat, norm, fits_i64, eqv, le_pair, lt_pair, add_pair, sub_pair, mul_pair, div_pair,
    canonical_pair, clamp01_pair, lemma_norm_props, lemma_le_trans, lemma_lt_trans,
    lemma_eqv_order, lemma_canonical_eq, lemma_canonical_unique, lemma_pos_prod, lemma_norm_self,
};
use crate::mix::Mix;

verus! {

/// A linear interpolation between values ("colors").
///
/// The control points are expected in strictly increasing position order;
/// the constructors state that expectation as their precondition instead of
/// sorting or validating, so a caller must guarantee it.
pub struct Gradient<C: Mix> {
    stops: Vec<(Rat, C)>,
}

impl<C: Mix> Gradient<C> {
    /// Well-formedness is kept as a type invariant: every reachable
    /// `Gradient` satisfies `wf`.
    #[verifier::type_invariant]
    closed spec fn inv(self) -> bool {
        self.wf()
    }

    /// The number of control points.
    pub closed spec fn len_spec(self) -> int {
        self.stops@.len() as int
    }

    /// The position of the `i`-th control point, as a view pair.
    pub closed spec fn pos(self, i: int) -> (int, int) {
        self.stops@[i].0@
    }

    /// The value of the `i`-th control point.
    pub closed spec fn val(self, i: int) -> C {
        self.stops@[i].1
    }

    /// At least one control point; positions strictly increasing, with
    /// positive denominators.
    pub open spec fn wf(self) -> bool {
        &&& self.len_spec() >= 1
        &&& forall|i: int, j: int|
            0 <= i < j < self.len_spec() ==> lt_pair(#[trigger] self.pos(i), #[trigger] self.pos(j))
        &&& forall|i: int| 0 <= i < self.len_spec() ==> (#[trigger] self.pos(i)).1 >= 1
    }

    /// The control points hold the values `vals` at evenly spaced positions
    /// `i / (k - 1)` (or position `0` for a single value).
    pub open spec fn evenly_spaced(self, vals: Seq<C>) -> bool {
        &&& self.len_spec() == vals.len()
        &&& forall|i: int| 0 <= i < vals.len() ==> #[trigger] self.val(i) == vals[i]
        &&& forall|i: int|
            0 <= i < vals.len() ==> #[trigger] self.pos(i) == (if vals.len() == 1 {
                (0int, 1int)
            } else {
                norm((i, vals.len() - 1))
            })
    }

    /// The index `j` of the lower bracketing control point for an interior
    /// position `p`: the unique `j` with `pos(j) < p <= pos(j + 1)`.
    pub open spec fn bracket(self, p: (int, int)) -> int {
        self.first_at_or_above(p, 1) - 1
    }

    /// The smallest index in `[i, len - 1]` whose position is at or above
    /// `p`, or `len - 1` if there is none.
    pub closed spec fn first_at_or_above(self, p: (int, int), i: int) -> int
        decreases self.len_spec() - i,
    {
        if i >= self.len_spec() - 1 {
            self.len_spec() - 1
        } else if le_pair(p, self.pos(i)) {
            i
        } else {
            self.first_at_or_above(p, i + 1)
        }
    }

    /// The blend factor for position `p` against bracket index `j`, before
    /// clamping: `(p - pos(j)) / (pos(j + 1) - pos(j))`, each step in
    /// canonical form exactly as the machine computes it.
    pub open spec fn factor_at(self, p: (int, int), j: int) -> (int, int) {
        norm(
            div_pair(
                norm(sub_pair(p, self.pos(j))),
                norm(sub_pair(self.pos(j + 1), self.pos(j))),
            ),
        )
    }

    /// What `get` returns: the first value at or below the domain, the last
    /// value at or above it, and the clamped blend of the bracketing control
    /// points in between.
    pub open spec fn get_spec(self, p: (int, int)) -> C {
        if le_pair(p, self.pos(0)) {
            self.val(0)
        } else if le_pair(self.pos(self.len_spec() - 1), p) {
            self.val(self.len_spec() - 1)
        } else {
            let j = self.bracket(p);
            self.val(j).mix_spec(self.val(j + 1), clamp01_pair(self.factor_at(p, j)))
        }
    }

    /// The machine-limit guard for `get`: for interior positions, the factor
    /// computation must fit the scalar type and the element's own blend
    /// guard must hold.  Positions at or outside the domain are returned
    /// without arithmetic and need no guard.
    pub open spec fn get_ok(self, p: (int, int)) -> bool {
        le_pair(p, self.pos(0)) || le_pair(self.pos(self.len_spec() - 1), p) || {
            let j = self.bracket(p);
            &&& fits_i64(norm(sub_pair(p, self.pos(j))))
            &&& fits_i64(norm(sub_pair(self.pos(j + 1), self.pos(j))))
            &&& fits_i64(self.factor_at(p, j))
            &&& self.val(j).mix_ok(self.val(j + 1), clamp01_pair(self.factor_at(p, j)))
        }
    }

    /// Creates a gradient of evenly spaced values over the domain `[0, 1]`.
    /// There must be at least one value.
    pub fn new(colors: Vec<C>) -> (r: Gradient<C>)
        requires
            1 <= colors@.len() <= 0x7fff_ffff_ffff_ffff,
        ensures
            r.wf(),
            r.evenly_spaced(colors@),
    {
        let n = colors.len();
        let mut stops: Vec<(Rat, C)> = Vec::new();
        let mut i: usize = 0;
        while i < n
            invariant
                n == colors@.len(),
                1 <= n <= 0x7fff_ffff_ffff_ffff,
                i <= n,
                stops@.len() == i,
                forall|k: int| 0 <= k < i ==> (#[trigger] stops@[k]).1 == colors@[k],
                forall|k: int| 0 <= k < i ==> (#[trigger] stops@[k]).0@.1 >= 1,
                forall|k: int|
                    0 <= k < i ==> (#[trigger] stops@[k]).0@ == (if n == 1 {
                        (0int, 1int)
                    } else {
                        norm((k, n - 1))
                    }),
            decreases n - i,
        {
            let p = if n == 1 {
                Rat::from_int(0)
            } else {
                Rat::new(i as i64, (n - 1) as i64)
            };
            let c = colors[i];
            stops.push((p, c));
            i = i + 1;
        }
        proof {
            assert forall|a: int, b: int| 0 <= a < b < stops@.len() implies lt_pair(
                (#[trigger] stops@[a]).0@,
                (#[trigger] stops@[b]).0@,
            ) by {
                lemma_even_positions_sorted(a, b, n as int - 1);
            }
        }
        let g = Gradient { stops };
        proof {
            g.lemma_accessors();
        }
        g
    }

    /// Creates a gradient from explicit `(position, value)` control points.
    /// There must be at least one, and the positions must already be in
    /// strictly increasing order; nothing is sorted or validated here.
    pub fn with_domain(colors: Vec<(Rat, C)>) -> (r: Gradient<C>)
        requires
            colors@.len() >= 1,
            forall|i: int, j: int|
                0 <= i < j < colors@.len() ==> lt_pair(
                    (#[trigger] colors@[i]).0@,
                    (#[trigger] colors@[j]).0@,
                ),
        ensures
            r.wf(),
            r.len_spec() == colors@.len(),
            forall|i: int| 0 <= i < colors@.len() ==> #[trigger] r.pos(i) == colors@[i].0@,
            forall|i: int| 0 <= i < colors@.len() ==> #[trigger] r.val(i) == colors@[i].1,
    {
        let n = colors.len();
        let mut i: usize = 0;
        while i < n
            invariant
                n == colors@.len(),
                i <= n,
                forall|k: int| 0 <= k < i ==> (#[trigger] colors@[k]).0@.1 >= 1,
            decreases n - i,
        {
            let pr = &colors[i];
            proof {
                use_type_invariant(&pr.0);
                pr.0.lemma_canonical();
            }
            i = i + 1;
        }
        let g = Gradient { stops: colors };
        proof {
            g.lemma_accessors();
        }
        g
    }

    /// Connects the accessor spec functions with the stored control points.
    proof fn lemma_accessors(self)
        ensures
            self.len_spec() == self.stops@.len(),
            forall|i: int| 0 <= i < self.len_spec() ==> #[trigger] self.pos(i)
                == self.stops@[i].0@,
            forall|i: int| 0 <= i < self.len_spec() ==> #[trigger] self.val(i)
                == self.stops@[i].1,
    {
    }

    /// Returns the value at `position`.  The value of the closest control
    /// point is returned when `position` is outside the domain.
    pub fn get(&self, position: &Rat) -> (r: C)
        requires
            self.get_ok(position@),
        ensures
            r == self.get_spec(position@),
    {
        proof {
            use_type_invariant(self);
        }
        let n = self.stops.len();
        let (min0, minc0) = self.stops[0];
        if position.le(&min0) {
            return minc0;
        }
        let (max0, maxc0) = self.stops[n - 1];
        if max0.le(position) {
            return maxc0;
        }
        let mut min_index: usize = 0;
        let mut max_index: usize = n - 1;
        while min_index < max_index - 1
            invariant
                self.wf(),
                self.get_ok(position@),
                n == self.stops@.len(),
                min_index < max_index < n,
                lt_pair(self.pos(min_index as int), position@),
                le_pair(position@, self.pos(max_index as int)),
            decreases max_index - min_index,
        {
            let index = min_index + (max_index - min_index) / 2;
            let (p, _) = self.stops[index];
            if position.le(&p) {
                max_index = index;
            } else {
                min_index = index;
            }
        }
        proof {
            use_type_invariant(position);
            position.lemma_canonical();
            self.lemma_bracket_is(position@, min_index as int);
        }
        let (minp, minc) = self.stops[min_index];
        let (maxp, maxc) = self.stops[min_index + 1];
        proof {
            lemma_pos_prod(position@.1, minp@.1);
            lemma_pos_prod(maxp@.1, minp@.1);
            lemma_norm_props(sub_pair(position@, minp@).0, sub_pair(position@, minp@).1);
            lemma_norm_props(sub_pair(maxp@, minp@).0, sub_pair(maxp@, minp@).1);
        }
        let span = maxp.sub(&minp);
        let factor = position.sub(&minp).div(&span).clamp_unit();
        minc.mix(&maxc, factor)
    }

    /// Returns the two ends of the domain: the positions of the first and
    /// last control points, verbatim.
    pub fn domain(&self) -> (r: (Rat, Rat))
        ensures
            r.0@ == self.pos(0),
            r.1@ == self.pos(self.len_spec() - 1),
    {
        proof {
            use_type_invariant(self);
        }
        let n = self.stops.len();
        let (min, _) = self.stops[0];
        let (max, _) = self.stops[n - 1];
        (min, max)
    }

    /// The bracketing invariant `pos(j) < p <= pos(j + 1)` determines the
    /// bracket index uniquely.
    proof fn lemma_bracket_is(self, p: (int, int), j: int)
        requires
            self.wf(),
            p.1 >= 1,
            0 <= j <= self.len_spec() - 2,
            lt_pair(self.pos(j), p),
            le_pair(p, self.pos(j + 1)),
        ensures
            self.bracket(p) == j,
    {
        self.lemma_first_at_or_above(p, 1);
        let r = self.first_at_or_above(p, 1);
        if r < j + 1 {
            assert(le_pair(p, self.pos(r)) || r == self.len_spec() - 1);
            assert(le_pair(p, self.pos(r)));
            if r < j {
                lemma_lt_trans(self.pos(r), self.pos(j), p);
            }
            assert(lt_pair(self.pos(r), p));
            assert(false);
        }
        if r > j + 1 {
            assert(lt_pair(self.pos(j + 1), p));
            assert(false);
        }
    }

    /// What `first_at_or_above` guarantees: it lands in `[i, len - 1]`, all
    /// positions from `i` up to it are strictly below `p`, and its own
    /// position is at or above `p` unless it is the last index.
    proof fn lemma_first_at_or_above(self, p: (int, int), i: int)
        requires
            self.wf(),
            1 <= i <= self.len_spec() - 1,
        ensures
            i <= self.first_at_or_above(p, i) <= self.len_spec() - 1,
            le_pair(p, self.pos(self.first_at_or_above(p, i))) || self.first_at_or_above(p, i)
                == self.len_spec() - 1,
            forall|m: int|
                i <= m < self.first_at_or_above(p, i) ==> lt_pair(#[trigger] self.pos(m), p),
        decreases self.len_spec() - i,
    {
        if i >= self.len_spec() - 1 {
        } else if le_pair(p, self.pos(i)) {
        } else {
            self.lemma_first_at_or_above(p, i + 1);
            assert forall|m: int| i <= m < self.first_at_or_above(p, i) implies lt_pair(
                #[trigger] self.pos(m),
                p,
            ) by {
                if m == i {
                    assert(!le_pair(p, self.pos(i)));
                }
            }
        }
    }
}

/// A domain range for gradient slices: two independently optional bounds.
///
/// No ordering between the bounds is enforced at construction; an inverted
/// range degenerates under `clamp` and `constrain` as those operations
/// define.
#[derive(Clone, Copy, PartialEq, Debug)]
pub struct Range {
    /// The lower bound, if any.
    pub from: Option<Rat>,
    /// The upper bound, if any.
    pub to: Option<Rat>,
}

impl Range {
    /// Builds a range from two optional bounds.
    pub fn new(from: Option<Rat>, to: Option<Rat>) -> (r: Range)
        ensures
            r == (Range { from, to }),
    {
        Range { from, to }
    }

    /// Both present bounds have positive denominators (true of every
    /// exec-held range; stated for ghost arguments of the laws below).
    pub open spec fn wf(self) -> bool {
        &&& match self.from {
            Some(f) => f.canonical(),
            None => true,
        }
        &&& match self.to {
            Some(t) => t.canonical(),
            None => true,
        }
    }

    /// When both bounds are present, the lower one is at or below the upper.
    pub open spec fn proper(self) -> bool {
        match (self.from, self.to) {
            (Some(f), Some(t)) => le_pair(f@, t@),
            _ => true,
        }
    }

    /// What `clamp` returns: `x` bounded from below by `from` first, then
    /// from above by `to`.  With contradictory bounds (`from > to`) the
    /// second step wins and the result degenerates to `to`.
    pub open spec fn clamp_spec(self, x: (int, int)) -> (int, int) {
        let x1 = match self.from {
            Some(f) => if lt_pair(x, f@) {
                f@
            } else {
                x
            },
            None => x,
        };
        match self.to {
            Some(t) => if lt_pair(x1, t@) {
                x1
            } else {
                t@
            },
            None => x1,
        }
    }

    /// Bounds `x` into the range.
    pub fn clamp(&self, x: &Rat) -> (r: Rat)
        ensures
            r@ == self.clamp_spec(x@),
            r.canonical(),
    {
        let x1 = match &self.from {
            Some(f) => if x.lt(f) {
                *f
            } else {
                *x
            },
            None => *x,
        };
        let x2 = match &self.to {
            Some(t) => if x1.lt(t) {
                x1
            } else {
                *t
            },
            None => x1,
        };
        proof {
            use_type_invariant(&x2);
            x2.lemma_canonical();
        }
        x2
    }

    /// The first degenerate case of `constrain`: the other range begins at
    /// or after this range's end.
    pub open spec fn collapses_high(self, other: Range) -> bool {
        match (other.from, self.to) {
            (Some(of), Some(st)) => le_pair(st@, of@),
            _ => false,
        }
    }

    /// The second degenerate case of `constrain`: the other range ends at or
    /// before this range's start.
    pub open spec fn collapses_low(self, other: Range) -> bool {
        match (other.to, self.from) {
            (Some(ot), Some(sf)) => le_pair(ot@, sf@),
            _ => false,
        }
    }

    /// The componentwise intersection: the larger of the lower bounds and
    /// the smaller of the upper bounds, a missing bound deferring to the
    /// present one.
    pub open spec fn combine_spec(self, other: Range) -> Range {
        Range {
            from: match (self.from, other.from) {
                (Some(s), Some(o)) => Some(
                    if lt_pair(s@, o@) {
                        o
                    } else {
                        s
                    },
                ),
                (Some(s), None) => Some(s),
                (None, Some(o)) => Some(o),
                (None, None) => None,
            },
            to: match (self.to, other.to) {
                (Some(s), Some(o)) => Some(
                    if lt_pair(o@, s@) {
                        o
                    } else {
                        s
                    },
                ),
                (Some(s), None) => Some(s),
                (None, Some(o)) => Some(o),
                (None, None) => None,
            },
        }
    }

    /// What `constrain` returns: the intersection of the two ranges, except
    /// that a disjoint `other` collapses the result to a zero-width range at
    /// the receiver's nearest bound.
    pub open spec fn constrain_spec(self, other: Range) -> Range {
        if self.collapses_high(other) {
            Range { from: self.to, to: self.to }
        } else if self.collapses_low(other) {
            Range { from: self.from, to: self.from }
        } else {
            self.combine_spec(other)
        }
    }

    /// Intersects this range with `other`.
    pub fn constrain(&self, other: &Range) -> (r: Range)
        ensures
            r == self.constrain_spec(*other),
    {
        if let (Some(of), Some(st)) = (&other.from, &self.to) {
            if st.le(of) {
                return Range { from: self.to, to: self.to };
            }
        }
        if let (Some(ot), Some(sf)) = (&other.to, &self.from) {
            if ot.le(sf) {
                return Range { from: self.from, to: self.from };
            }
        }
        let from = match (&self.from, &other.from) {
            (Some(s), Some(o)) => Some(
                if s.lt(o) {
                    *o
                } else {
                    *s
                },
            ),
            (Some(s), None) => Some(*s),
            (None, Some(o)) => Some(*o),
            (None, None) => None,
        };
        let to = match (&self.to, &other.to) {
            (Some(s), Some(o)) => Some(
                if o.lt(s) {
                    *o
                } else {
                    *s
                },
            ),
            (Some(s), None) => Some(*s),
            (None, Some(o)) => Some(*o),
            (None, None) => None,
        };
        Range { from, to }
    }
}

/// The value source a [`Take`] samples from: either a whole gradient or a
/// slice of one.  One sampler type serves both through this two-case split.
#[derive(Clone, Copy)]
pub enum MaybeSlice<'a, C: Mix> {
    /// Samples the whole gradient.
    NotSlice(&'a Gradient<C>),
    /// Samples a domain-restricted slice.
    Slice(Slice<'a, C>),
}

impl<'a, C: Mix> MaybeSlice<'a, C> {
    /// What `get` returns, forwarded to the underlying source.
    pub open spec fn get_spec(self, p: (int, int)) -> C {
        match self {
            MaybeSlice::NotSlice(g) => g.get_spec(p),
            MaybeSlice::Slice(s) => s.get_spec(p),
        }
    }

    /// The machine-limit guard, forwarded to the underlying source.
    pub open spec fn get_ok(self, p: (int, int)) -> bool {
        match self {
            MaybeSlice::NotSlice(g) => g.get_ok(p),
            MaybeSlice::Slice(s) => s.get_ok(p),
        }
    }

    /// Returns the value at `position` from the underlying source.
    fn get(&self, position: &Rat) -> (r: C)
        requires
            self.get_ok(position@),
        ensures
            r == self.get_spec(position@),
    {
        match self {
            MaybeSlice::NotSlice(g) => g.get(position),
            MaybeSlice::Slice(s) => s.get(position),
        }
    }
}

/// A read-only view of a gradient, restricted to a sub-domain.  It holds a
/// reference to the gradient and a range; no control points are copied.
#[derive(Clone, Copy)]
pub struct Slice<'a, C: Mix> {
    gradient: &'a Gradient<C>,
    range: Range,
}

impl<'a, C: Mix> Slice<'a, C> {
    /// The gradient this slice restricts.
    pub closed spec fn src(self) -> Gradient<C> {
        *self.gradient
    }

    /// The restricting range.
    pub closed spec fn range_of(self) -> Range {
        self.range
    }

    /// What `get` returns: the underlying gradient's value at the position
    /// clamped into the slice's range.
    pub open spec fn get_spec(self, p: (int, int)) -> C {
        self.src().get_spec(self.range_of().clamp_spec(p))
    }

    /// The machine-limit guard for `get`.
    pub open spec fn get_ok(self, p: (int, int)) -> bool {
        self.src().get_ok(self.range_of().clamp_spec(p))
    }

    /// The effective domain: the range's bounds where present, the parent
    /// domain's end where not.
    pub open spec fn domain_spec(self) -> ((int, int), (int, int)) {
        (
            match self.range_of().from {
                Some(f) => f@,
                None => self.src().pos(0),
            },
            match self.range_of().to {
                Some(t) => t@,
                None => self.src().pos(self.src().len_spec() - 1),
            },
        )
    }

    /// Returns the value at `position`, clamped into the slice's domain.
    pub fn get(&self, position: &Rat) -> (r: C)
        requires
            self.get_ok(position@),
        ensures
            r == self.get_spec(position@),
    {
        self.gradient.get(&self.range.clamp(position))
    }

    /// Restricts this slice further; the result reads from the same
    /// gradient, through the intersection of the two ranges.
    pub fn slice(&self, range: Range) -> (r: Slice<'a, C>)
        ensures
            r.src() == self.src(),
            r.range_of() == self.range_of().constrain_spec(range),
    {
        Slice { gradient: self.gradient, range: self.range.constrain(&range) }
    }

    /// Returns the two ends of this slice's domain.
    pub fn domain(&self) -> (r: (Rat, Rat))
        ensures
            (r.0@, r.1@) == self.domain_spec(),
    {
        match (&self.range.from, &self.range.to) {
            (Some(from), Some(to)) => (*from, *to),
            _ => {
                let (gmin, gmax) = self.gradient.domain();
                let min = match &self.range.from {
                    Some(f) => *f,
                    None => gmin,
                };
                let max = match &self.range.to {
                    Some(t) => *t,
                    None => gmax,
                };
                (min, max)
            },
        }
    }

    /// Takes `n` evenly spaced values of this slice, as a double-ended
    /// sampler.
    pub fn take(&self, n: usize) -> (r: Take<'a, C>)
        requires
            n <= 0x7fff_ffff_ffff_ffff,
            fits_i64(norm(sub_pair(self.domain_spec().1, self.domain_spec().0))),
        ensures
            r.source() == MaybeSlice::Slice(*self),
            r.from_spec() == self.domain_spec().0,
            r.diff_spec() == norm(sub_pair(self.domain_spec().1, self.domain_spec().0)),
            r.len_spec() == n as int,
            r.taken_head() == 0,
            r.taken_end() == 0,
    {
        let (min, max) = self.domain();
        let diff = max.sub(&min);
        Take {
            gradient: MaybeSlice::Slice(*self),
            from: min,
            diff,
            len: n,
            from_head: 0,
            from_end: 0,
        }
    }
}

impl<C: Mix> Gradient<C> {
    /// Restricts this gradient to a sub-domain, without copying control
    /// points.
    pub fn slice<'a>(&'a self, range: Range) -> (r: Slice<'a, C>)
        ensures
            r.src() == *self,
            r.range_of() == range,
    {
        Slice { gradient: self, range }
    }

    /// Takes `n` evenly spaced values of this gradient, as a double-ended
    /// sampler.  Both domain ends are included for `n > 1`; `n == 1` yields
    /// only the lower end.
    pub fn take<'a>(&'a self, n: usize) -> (r: Take<'a, C>)
        requires
            n <= 0x7fff_ffff_ffff_ffff,
            fits_i64(norm(sub_pair(self.pos(self.len_spec() - 1), self.pos(0)))),
        ensures
            r.source() == MaybeSlice::NotSlice(self),
            r.from_spec() == self.pos(0),
            r.diff_spec() == norm(sub_pair(self.pos(self.len_spec() - 1), self.pos(0))),
            r.len_spec() == n as int,
            r.taken_head() == 0,
            r.taken_end() == 0,
    {
        let (min, max) = self.domain();
        let diff = max.sub(&min);
        Take {
            gradient: MaybeSlice::NotSlice(self),
            from: min,
            diff,
            len: n,
            from_head: 0,
            from_end: 0,
        }
    }
}

/// A double-ended walk over `len` evenly spaced samples of a gradient or
/// slice.  Samples are produced lazily; two counters track how many have
/// been taken from the head and from the end, and the walk is exhausted when
/// they meet.
pub struct Take<'a, C: Mix> {
    gradient: MaybeSlice<'a, C>,
    from: Rat,
    diff: Rat,
    len: usize,
    from_head: usize,
    from_end: usize,
}

impl<'a, C: Mix> Take<'a, C> {
    /// The two counters never overshoot, and the sample count stays small
    /// enough to be cast to the scalar type.
    #[verifier::type_invariant]
    closed spec fn inv(self) -> bool {
        self.from_head + self.from_end <= self.len && self.len <= 0x7fff_ffff_ffff_ffff
    }

    /// The value source.
    pub closed spec fn source(self) -> MaybeSlice<'a, C> {
        self.gradient
    }

    /// The position of the first sample: the lower end of the source domain.
    pub closed spec fn from_spec(self) -> (int, int) {
        self.from@
    }

    /// The span of the source domain (upper end minus lower end).
    pub closed spec fn diff_spec(self) -> (int, int) {
        self.diff@
    }

    /// The total number of samples of the walk.
    pub closed spec fn len_spec(self) -> int {
        self.len as int
    }

    /// How many samples have been taken from the head.
    pub closed spec fn taken_head(self) -> int {
        self.from_head as int
    }

    /// How many samples have been taken from the end.
    pub closed spec fn taken_end(self) -> int {
        self.from_end as int
    }

    /// How many samples are still to come.
    pub open spec fn remaining(self) -> int {
        self.len_spec() - self.taken_head() - self.taken_end()
    }

    /// The distance between two neighbouring samples: the domain span
    /// divided by `len - 1`.
    pub open spec fn stride(self) -> (int, int) {
        norm(div_pair(self.diff_spec(), (self.len_spec() - 1, 1int)))
    }

    /// The position of the `i`-th sample: `from + stride * i`, or the lower
    /// domain end itself when there is only one sample.
    pub open spec fn sample_pos(self, i: int) -> (int, int) {
        if self.len_spec() == 1 {
            self.from_spec()
        } else {
            norm(add_pair(self.from_spec(), norm(mul_pair(self.stride(), (i, 1int)))))
        }
    }

    /// The `i`-th sample value, whichever end it is consumed from.
    pub open spec fn sample(self, i: int) -> C {
        self.source().get_spec(self.sample_pos(i))
    }

    /// The machine-limit guard for producing the sample at index `i`.
    pub open spec fn step_ok(self, i: int) -> bool {
        if self.len_spec() == 1 {
            self.source().get_ok(self.from_spec())
        } else {
            &&& fits_i64(self.stride())
            &&& fits_i64(norm(mul_pair(self.stride(), (i, 1int))))
            &&& fits_i64(self.sample_pos(i))
            &&& self.source().get_ok(self.sample_pos(i))
        }
    }

    /// How many samples are left, as an exact count (lower and upper bound
    /// alike).
    pub fn size_hint(&self) -> (r: (usize, Option<usize>))
        ensures
            r.0 as int == self.remaining(),
            r.1 == Some(r.0),
    {
        proof {
            use_type_invariant(self);
        }
        let rem = self.len - self.from_head - self.from_end;
        (rem, Some(rem))
    }

    /// Produces the next sample from the head, or `None` when the walk is
    /// exhausted.
    pub fn next(&mut self) -> (r: Option<C>)
        requires
            old(self).remaining() > 0 ==> old(self).step_ok(old(self).taken_head()),
        ensures
            old(self).remaining() <= 0 ==> r is None && *final(self) == *old(self),
            old(self).remaining() > 0 ==> {
                &&& r == Some(old(self).sample(old(self).taken_head()))
                &&& final(self).taken_head() == old(self).taken_head() + 1
                &&& final(self).taken_end() == old(self).taken_end()
                &&& final(self).len_spec() == old(self).len_spec()
                &&& final(self).from_spec() == old(self).from_spec()
                &&& final(self).diff_spec() == old(self).diff_spec()
                &&& final(self).source() == old(self).source()
            },
    {
        proof {
            use_type_invariant(&*self);
        }
        if self.from_head + self.from_end < self.len {
            let v = if self.len == 1 {
                self.gradient.get(&self.from)
            } else {
                let stride = self.diff.div(&Rat::from_int((self.len - 1) as i64));
                let offset = stride.mul(&Rat::from_int(self.from_head as i64));
                let position = self.from.add(&offset);
                self.gradient.get(&position)
            };
            self.from_head = self.from_head + 1;
            Some(v)
        } else {
            None
        }
    }

    /// Produces the next sample from the end, or `None` when the walk is
    /// exhausted.
    pub fn next_back(&mut self) -> (r: Option<C>)
        requires
            old(self).remaining() > 0 ==> old(self).step_ok(
                old(self).len_spec() - old(self).taken_end() - 1,
            ),
        ensures
            old(self).remaining() <= 0 ==> r is None && *final(self) == *old(self),
            old(self).remaining() > 0 ==> {
                &&& r == Some(old(self).sample(old(self).len_spec() - old(self).taken_end() - 1))
                &&& final(self).taken_end() == old(self).taken_end() + 1
                &&& final(self).taken_head() == old(self).taken_head()
                &&& final(self).len_spec() == old(self).len_spec()
                &&& final(self).from_spec() == old(self).from_spec()
                &&& final(self).diff_spec() == old(self).diff_spec()
                &&& final(self).source() == old(self).source()
            },
    {
        proof {
            use_type_invariant(&*self);
        }
        if self.from_head + self.from_end < self.len {
            let v = if self.len == 1 {
                self.gradient.get(&self.from)
            } else {
                let stride = self.diff.div(&Rat::from_int((self.len - 1) as i64));
                let offset = stride.mul(&Rat::from_int((self.len - self.from_end - 1) as i64));
                let position = self.from.add(&offset);
                self.gradient.get(&position)
            };
            self.from_end = self.from_end + 1;
            Some(v)
        } else {
            None
        }
    }
}

impl<C: Mix> Gradient<C> {
    /// Law: any position at or below the lower domain end yields the first
    /// control point's value exactly.
    pub proof fn lemma_get_at_or_below_start(self, p: (int, int))
        requires
            self.wf(),
            p.1 >= 1,
            le_pair(p, self.pos(0)),
        ensures
            self.get_spec(p) == self.val(0),
    {
    }

    /// Law: any position at or above the upper domain end yields the last
    /// control point's value exactly.
    pub proof fn lemma_get_at_or_above_end(self, p: (int, int))
        requires
            self.wf(),
            p.1 >= 1,
            le_pair(self.pos(self.len_spec() - 1), p),
        ensures
            self.get_spec(p) == self.val(self.len_spec() - 1),
    {
        if le_pair(p, self.pos(0)) && self.len_spec() >= 2 {
            lemma_le_trans(self.pos(self.len_spec() - 1), p, self.pos(0));
            assert(lt_pair(self.pos(0), self.pos(self.len_spec() - 1)));
            assert(false);
        }
    }

    /// Law: a gradient evenly spaced over `vals` returns `vals[i]` exactly
    /// when sampled at the `i`-th control position `i / (k - 1)`.
    pub proof fn lemma_get_hits_inputs(self, vals: Seq<C>, i: int)
        requires
            self.wf(),
            self.evenly_spaced(vals),
            forall|j: int| 0 <= j < vals.len() ==> (#[trigger] vals[j]).wf(),
            0 <= i < vals.len(),
        ensures
            self.get_spec(self.pos(i)) == vals[i],
    {
        let k = vals.len() as int;
        let p = self.pos(i);
        if i == 0 {
            assert(le_pair(p, self.pos(0)));
        } else if i == k - 1 {
            assert(le_pair(self.pos(k - 1), p));
            if le_pair(p, self.pos(0)) {
                assert(lt_pair(self.pos(0), self.pos(k - 1)));
                assert(false);
            }
        } else {
            assert(lt_pair(self.pos(0), p));
            assert(lt_pair(p, self.pos(k - 1)));
            self.lemma_bracket_is(p, i - 1);
            let d = sub_pair(self.pos(i), self.pos(i - 1));
            assert(sub_pair(p, self.pos(i - 1)) == d);
            assert(lt_pair(self.pos(i - 1), self.pos(i)));
            assert(d.0 >= 1);
            lemma_pos_prod(self.pos(i).1, self.pos(i - 1).1);
            assert(d.1 >= 1);
            lemma_norm_props(d.0, d.1);
            let nd = norm(d);
            lemma_pos_prod(nd.0, nd.1);
            lemma_pos_prod(nd.1, nd.0);
            let q = nd.0 * nd.1;
            assert(div_pair(nd, nd) == (q, q));
            lemma_norm_self(q);
            assert(self.factor_at(p, i - 1) == (1int, 1int));
            assert(clamp01_pair((1int, 1int)) == (1int, 1int));
            self.val(i - 1).lemma_mix_one(self.val(i));
        }
    }
}

impl<'a, C: Mix> Take<'a, C> {
    /// The full sample sequence, read from the head.
    pub open spec fn forward_samples(self) -> Seq<C> {
        Seq::new(self.len_spec() as nat, |i: int| self.sample(i))
    }

    /// The full sample sequence, read from the end.
    pub open spec fn backward_samples(self) -> Seq<C> {
        Seq::new(self.len_spec() as nat, |i: int| self.sample(self.len_spec() - 1 - i))
    }

    /// Law: reading every sample forward and reversing the list equals
    /// reading every sample backward, for any sample count including zero
    /// and one.  `next` produces `sample(taken_head())` and `next_back`
    /// produces `sample(len - taken_end() - 1)`, so the two traversals
    /// enumerate the same values in opposite orders.
    pub proof fn lemma_reversal(self)
        ensures
            self.forward_samples().reverse() == self.backward_samples(),
    {
        let f = self.forward_samples();
        let b = self.backward_samples();
        if f.len() == 0 {
            assert(f.reverse() =~= b);
        } else {
            assert forall|i: int| 0 <= i < b.len() implies f.reverse()[i] == b[i] by {
                assert(f.reverse()[i] == f[f.len() - 1 - i]);
            }
            assert(f.reverse() =~= b);
        }
    }
}

impl<'a, C: Mix> Slice<'a, C> {
    /// Law: slicing does not change interior lookups.  For any position
    /// within the slice's range, the slice returns exactly what the
    /// underlying gradient returns; only positions outside the range are
    /// clamped to its ends.
    pub proof fn lemma_get_interior(self, p: (int, int))
        requires
            self.range_of().wf(),
            canonical_pair(p),
            match self.range_of().from {
                Some(f) => le_pair(f@, p),
                None => true,
            },
            match self.range_of().to {
                Some(t) => le_pair(p, t@),
                None => true,
            },
        ensures
            self.get_spec(p) == self.src().get_spec(p),
    {
        let r = self.range_of();
        match r.to {
            Some(t) => {
                if !lt_pair(p, t@) {
                    lemma_canonical_unique(p, t@);
                }
            },
            None => {},
        }
    }
}

impl Range {
    /// Law: clamping is idempotent; clamping an already clamped value
    /// changes nothing, for every range, including contradictory ones.
    pub proof fn lemma_clamp_idempotent(self, x: (int, int))
        requires
            self.wf(),
            x.1 >= 1,
        ensures
            self.clamp_spec(self.clamp_spec(x)) == self.clamp_spec(x),
    {
    }

    /// Law: a proper range (lower bound at or below upper bound, where both
    /// are present) constrained by itself is returned unchanged.  An
    /// inverted range is outside this law: constraining `[1, 0]` by itself
    /// collapses it to the zero-width range at `0`.
    pub proof fn lemma_constrain_self(self)
        requires
            self.wf(),
            self.proper(),
        ensures
            self.constrain_spec(self) == self,
    {
        match (self.from, self.to) {
            (Some(f), Some(t)) => {
                if self.collapses_high(self) {
                    assert(eqv(f@, t@));
                    lemma_canonical_eq(f, t);
                }
            },
            _ => {},
        }
    }
}

/// Evenly spaced positions are strictly increasing.
proof fn lemma_even_positions_sorted(a: int, b: int, m: int)
    requires
        0 <= a < b,
        m >= 1,
    ensures
        lt_pair(norm((a, m)), norm((b, m))),
{
    lemma_norm_props(a, m);
    lemma_norm_props(b, m);
    assert(eqv(norm((a, m)), (a, m))) by {
        assert(norm((a, m)).0 * m == a * norm((a, m)).1);
    }
    assert(eqv(norm((b, m)), (b, m))) by {
        assert(norm((b, m)).0 * m == b * norm((b, m)).1);
    }
    assert(lt_pair((a, m), (b, m))) by (nonlinear_arith)
        requires
            0 <= a < b,
            m >= 1,
    ;
    lemma_eqv_order(norm((a, m)), (a, m), norm((b, m)), (b, m));
}

} // verus!
