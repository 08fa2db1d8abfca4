use vstd::prelude::*;
use crate::shape::Point2;

verus! {

/// A real-number type the geometry is computed in (single or double precision
/// in practice).
///
/// Every executable operation is tied to a spec function of the same name:
/// the library's contracts are stated over those, so a result is pinned down
/// as "the value this scalar type computes for this formula".
pub trait Scalar: Sized + Copy {
    spec fn spec_zero() -> Self;

    spec fn spec_one() -> Self;

    spec fn spec_epsilon() -> Self;

    spec fn spec_frac_pi_3() -> Self;

    spec fn spec_from_u16(n: u16) -> Self;

    spec fn spec_from_usize(n: usize) -> Self;

    spec fn spec_add(a: Self, b: Self) -> Self;

    spec fn spec_sub(a: Self, b: Self) -> Self;

    spec fn spec_mul(a: Self, b: Self) -> Self;

    spec fn spec_div(a: Self, b: Self) -> Self;

    spec fn spec_neg(a: Self) -> Self;

    spec fn spec_abs(a: Self) -> Self;

    spec fn spec_sqrt(a: Self) -> Self;

    spec fn spec_cbrt(a: Self) -> Self;

    spec fn spec_acos(a: Self) -> Self;

    spec fn spec_cos(a: Self) -> Self;

    spec fn spec_round(a: Self) -> Self;

    spec fn spec_to_u8(a: Self) -> Option<u8>;

    spec fn spec_lt(a: Self, b: Self) -> bool;

    spec fn spec_eq(a: Self, b: Self) -> bool;

    spec fn spec_search_quadratic(
        start: Point2<Self>,
        ctrl: Point2<Self>,
        end: Point2<Self>,
        p: Point2<Self>,
        steps: u16,
        epsilon: Self,
    ) -> (Self, Point2<Self>);

    spec fn spec_search_cubic(
        start: Point2<Self>,
        ctrl0: Point2<Self>,
        ctrl1: Point2<Self>,
        end: Point2<Self>,
        p: Point2<Self>,
        steps: u16,
        epsilon: Self,
    ) -> (Self, Point2<Self>);

    /// `a < b` and `b < a` never hold together, as `PartialOrd` requires of
    /// every ordering.
    proof fn lemma_lt_asymmetric(a: Self, b: Self)
        requires
            Self::spec_lt(a, b),
        ensures
            !Self::spec_lt(b, a),
    ;

    /// `a < b` and `b < c` give `a < c`, as `PartialOrd` requires of every
    /// ordering.
    proof fn lemma_lt_transitive(a: Self, b: Self, c: Self)
        requires
            Self::spec_lt(a, b),
            Self::spec_lt(b, c),
        ensures
            Self::spec_lt(a, c),
    ;

    /// Machine epsilon is positive: its negation lies below it.
    proof fn lemma_epsilon_positive()
        ensures
            Self::spec_lt(Self::spec_neg(Self::spec_epsilon()), Self::spec_epsilon()),
    ;

    fn zero() -> (r: Self)
        ensures
            r == Self::spec_zero(),
    ;

    fn one() -> (r: Self)
        ensures
            r == Self::spec_one(),
    ;

    /// The machine epsilon: the only tolerance the root solvers use.
    fn epsilon() -> (r: Self)
        ensures
            r == Self::spec_epsilon(),
    ;

    fn frac_pi_3() -> (r: Self)
        ensures
            r == Self::spec_frac_pi_3(),
    ;

    fn from_u16(n: u16) -> (r: Self)
        ensures
            r == Self::spec_from_u16(n),
    ;

    fn from_usize(n: usize) -> (r: Self)
        ensures
            r == Self::spec_from_usize(n),
    ;

    fn add(self, b: Self) -> (r: Self)
        ensures
            r == Self::spec_add(self, b),
    ;

    fn sub(self, b: Self) -> (r: Self)
        ensures
            r == Self::spec_sub(self, b),
    ;

    fn mul(self, b: Self) -> (r: Self)
        ensures
            r == Self::spec_mul(self, b),
    ;

    fn div(self, b: Self) -> (r: Self)
        ensures
            r == Self::spec_div(self, b),
    ;

    fn neg(self) -> (r: Self)
        ensures
            r == Self::spec_neg(self),
    ;

    fn abs(self) -> (r: Self)
        ensures
            r == Self::spec_abs(self),
    ;

    fn sqrt(self) -> (r: Self)
        ensures
            r == Self::spec_sqrt(self),
    ;

    fn cbrt(self) -> (r: Self)
        ensures
            r == Self::spec_cbrt(self),
    ;

    fn acos(self) -> (r: Self)
        ensures
            r == Self::spec_acos(self),
    ;

    fn cos(self) -> (r: Self)
        ensures
            r == Self::spec_cos(self),
    ;

    /// Rounds half away from zero.
    fn round(self) -> (r: Self)
        ensures
            r == Self::spec_round(self),
    ;

    /// The value as a byte, truncated toward zero; `None` when out of range.
    fn to_u8(self) -> (r: Option<u8>)
        ensures
            r == Self::spec_to_u8(self),
    ;

    fn lt(&self, b: &Self) -> (r: bool)
        ensures
            r == Self::spec_lt(*self, *b),
    ;

    fn eq(&self, b: &Self) -> (r: bool)
        ensures
            r == Self::spec_eq(*self, *b),
    ;

    /// Searches the quadratic Bezier curve `(start, ctrl, end)` for the
    /// parameter whose point lies nearest to `p`: `steps` evenly spaced samples
    /// pick a start, then a bisection refines it until the half-interval is
    /// below `epsilon`, which must exceed machine epsilon. Returns the
    /// parameter, which may fall outside `[0, 1]`, and the point of the curve
    /// there, in the Bernstein form (the end point itself when the parameter
    /// stayed at 1).
    fn search_quadratic(
        start: Point2<Self>,
        ctrl: Point2<Self>,
        end: Point2<Self>,
        p: Point2<Self>,
        steps: u16,
        epsilon: Self,
    ) -> (r: (Self, Point2<Self>))
        requires
            Self::spec_lt(Self::spec_epsilon(), epsilon),
        ensures
            r == Self::spec_search_quadratic(start, ctrl, end, p, steps, epsilon),
            r.1 == (Point2 { x: Self::spec_add(Self::spec_add(Self::spec_mul(Self::spec_mul(start.x, Self::spec_sub(Self::spec_one(), r.0)), Self::spec_sub(Self::spec_one(), r.0)), Self::spec_mul(Self::spec_mul(Self::spec_mul(ctrl.x, Self::spec_add(Self::spec_one(), Self::spec_one())), Self::spec_sub(Self::spec_one(), r.0)), r.0)), Self::spec_mul(Self::spec_mul(end.x, r.0), r.0)), y: Self::spec_add(Self::spec_add(Self::spec_mul(Self::spec_mul(start.y, Self::spec_sub(Self::spec_one(), r.0)), Self::spec_sub(Self::spec_one(), r.0)), Self::spec_mul(Self::spec_mul(Self::spec_mul(ctrl.y, Self::spec_add(Self::spec_one(), Self::spec_one())), Self::spec_sub(Self::spec_one(), r.0)), r.0)), Self::spec_mul(Self::spec_mul(end.y, r.0), r.0)) }) || (r.0 == Self::spec_one()
                && r.1 == end),
    ;

    /// The same search as `search_quadratic`, on the cubic Bezier curve
    /// `(start, ctrl0, ctrl1, end)`.
    fn search_cubic(
        start: Point2<Self>,
        ctrl0: Point2<Self>,
        ctrl1: Point2<Self>,
        end: Point2<Self>,
        p: Point2<Self>,
        steps: u16,
        epsilon: Self,
    ) -> (r: (Self, Point2<Self>))
        requires
            Self::spec_lt(Self::spec_epsilon(), epsilon),
        ensures
            r == Self::spec_search_cubic(start, ctrl0, ctrl1, end, p, steps, epsilon),
            r.1 == (Point2 { x: Self::spec_add(Self::spec_add(Self::spec_add(Self::spec_mul(Self::spec_mul(Self::spec_mul(start.x, Self::spec_sub(Self::spec_one(), r.0)), Self::spec_sub(Self::spec_one(), r.0)), Self::spec_sub(Self::spec_one(), r.0)), Self::spec_mul(Self::spec_mul(Self::spec_mul(Self::spec_mul(ctrl0.x, Self::spec_add(Self::spec_add(Self::spec_one(), Self::spec_one()), Self::spec_one())), Self::spec_sub(Self::spec_one(), r.0)), Self::spec_sub(Self::spec_one(), r.0)), r.0)), Self::spec_mul(Self::spec_mul(Self::spec_mul(Self::spec_mul(ctrl1.x, Self::spec_add(Self::spec_add(Self::spec_one(), Self::spec_one()), Self::spec_one())), Self::spec_sub(Self::spec_one(), r.0)), r.0), r.0)), Self::spec_mul(Self::spec_mul(Self::spec_mul(end.x, r.0), r.0), r.0)), y: Self::spec_add(Self::spec_add(Self::spec_add(Self::spec_mul(Self::spec_mul(Self::spec_mul(start.y, Self::spec_sub(Self::spec_one(), r.0)), Self::spec_sub(Self::spec_one(), r.0)), Self::spec_sub(Self::spec_one(), r.0)), Self::spec_mul(Self::spec_mul(Self::spec_mul(Self::spec_mul(ctrl0.y, Self::spec_add(Self::spec_add(Self::spec_one(), Self::spec_one()), Self::spec_one())), Self::spec_sub(Self::spec_one(), r.0)), Self::spec_sub(Self::spec_one(), r.0)), r.0)), Self::spec_mul(Self::spec_mul(Self::spec_mul(Self::spec_mul(ctrl1.y, Self::spec_add(Self::spec_add(Self::spec_one(), Self::spec_one()), Self::spec_one())), Self::spec_sub(Self::spec_one(), r.0)), r.0), r.0)), Self::spec_mul(Self::spec_mul(Self::spec_mul(end.y, r.0), r.0), r.0)) }) || (r.0 == Self::spec_one()
                && r.1 == end),
    ;
}

/// `a < b` in the scalar's order.
pub open spec fn lt<S: Scalar>(a: S, b: S) -> bool {
    S::spec_lt(a, b)
}

/// `a <= b`, read as "b is not below a".
pub open spec fn le<S: Scalar>(a: S, b: S) -> bool {
    !S::spec_lt(b, a)
}

/// Nothing lies below itself.
pub proof fn lemma_le_reflexive<S: Scalar>(a: S)
    ensures
        le(a, a),
{
    if lt(a, a) {
        S::lemma_lt_asymmetric(a, a);
    }
}

pub open spec fn two<S: Scalar>() -> S {
    S::spec_add(S::spec_one(), S::spec_one())
}

pub open spec fn three<S: Scalar>() -> S {
    S::spec_add(two::<S>(), S::spec_one())
}

} // verus!
