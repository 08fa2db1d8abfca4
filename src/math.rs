use vstd::prelude::*;
use crate::scalar::{Scalar, lt, le, two, three};

verus! {

/// The smaller of `a` and `b`; `a` when neither is below the other.
pub fn min<S: Scalar>(a: S, b: S) -> (r: S)
    ensures
        r == (if lt(b, a) { b } else { a }),
{
    if b.lt(&a) {
        b
    } else {
        a
    }
}

/// The larger of `a` and `b`; `a` when neither is below the other.
pub fn max<S: Scalar>(a: S, b: S) -> (r: S)
    ensures
        r == (if lt(a, b) { b } else { a }),
{
    if a.lt(&b) {
        b
    } else {
        a
    }
}

pub open spec fn spec_min<S: Scalar>(a: S, b: S) -> S {
    if lt(b, a) { b } else { a }
}

pub open spec fn spec_max<S: Scalar>(a: S, b: S) -> S {
    if lt(a, b) { b } else { a }
}

/// The middle one of three values: `max(min(a, b), min(max(a, b), c))`.
pub fn median<S: Scalar>(a: S, b: S, c: S) -> (r: S)
    ensures
        r == spec_max(spec_min(a, b), spec_min(spec_max(a, b), c)),
{
    max(min(a, b), min(max(a, b), c))
}

pub open spec fn spec_mix<S: Scalar>(a: S, b: S, w: S) -> S {
    S::spec_add(S::spec_mul(a, S::spec_sub(S::spec_one(), w)), S::spec_mul(b, w))
}

/// Linear interpolation `a * (1 - w) + b * w`.
pub fn mix<S: Scalar>(a: S, b: S, w: S) -> (r: S)
    ensures
        r == spec_mix(a, b, w),
{
    a.mul(S::one().sub(w)).add(b.mul(w))
}

/// The root of `b*x + a = 0`: `-a/b` when `|b|` exceeds epsilon; when both
/// coefficients are within epsilon of zero every x solves and the root 0 is
/// returned; otherwise there is none.
pub open spec fn linear_root<S: Scalar>(b: S, a: S) -> Option<S> {
    let eps = S::spec_epsilon();
    if lt(eps, S::spec_abs(b)) {
        Some(S::spec_div(S::spec_neg(a), b))
    } else if le(S::spec_abs(a), eps) {
        Some(S::spec_zero())
    } else {
        None
    }
}

pub open spec fn option_seq<S>(o: Option<S>) -> Seq<S> {
    match o {
        Some(v) => seq![v],
        None => seq![],
    }
}

/// The discriminant `b^2 - 4ca` of `c*x^2 + b*x + a`.
pub open spec fn quadratic_discriminant<S: Scalar>(c: S, b: S, a: S) -> S {
    let four = S::spec_add(two::<S>(), two::<S>());
    S::spec_sub(S::spec_mul(b, b), S::spec_mul(S::spec_mul(four, c), a))
}

/// The roots of `c*x^2 + b*x + a = 0`, classified by the discriminant against epsilon.
pub open spec fn quadratic_roots<S: Scalar>(c: S, b: S, a: S) -> Seq<S> {
    let eps = S::spec_epsilon();
    if lt(S::spec_abs(c), eps) {
        option_seq(linear_root(b, a))
    } else {
        let d = quadratic_discriminant(c, b, a);
        let two_c = S::spec_mul(two::<S>(), c);
        if lt(eps, d) {
            let sq = S::spec_sqrt(d);
            seq![
                S::spec_div(S::spec_add(S::spec_neg(b), sq), two_c),
                S::spec_div(S::spec_sub(S::spec_neg(b), sq), two_c),
            ]
        } else if !lt(d, S::spec_neg(eps)) {
            seq![S::spec_div(S::spec_neg(b), two_c)]
        } else {
            seq![]
        }
    }
}

/// With a leading coefficient away from zero the root count follows the
/// discriminant: two roots above epsilon, one within epsilon of zero, none
/// below.
pub proof fn lemma_quadratic_root_count<S: Scalar>(c: S, b: S, a: S)
    requires
        !lt(S::spec_abs(c), S::spec_epsilon()),
    ensures
        ({
            let d = quadratic_discriminant(c, b, a);
            let eps = S::spec_epsilon();
            &&& lt(eps, d) ==> quadratic_roots(c, b, a).len() == 2
            &&& !lt(eps, d) && !lt(d, S::spec_neg(eps)) ==> quadratic_roots(c, b, a).len() == 1
            &&& lt(d, S::spec_neg(eps)) ==> quadratic_roots(c, b, a).len() == 0
        }),
{
    let d = quadratic_discriminant(c, b, a);
    let eps = S::spec_epsilon();
    S::lemma_epsilon_positive();
    if lt(d, S::spec_neg(eps)) {
        S::lemma_lt_transitive(d, S::spec_neg(eps), eps);
        S::lemma_lt_asymmetric(d, eps);
    }
}

/// Solves the linear equation `b*x + a = 0`.
pub fn solve_linear<S: Scalar>(b: S, a: S) -> (r: Option<S>)
    ensures
        r == linear_root(b, a),
{
    let eps = S::epsilon();
    if eps.lt(&b.abs()) {
        Some(a.neg().div(b))
    } else if !eps.lt(&a.abs()) {
        Some(S::zero())
    } else {
        None
    }
}

/// Solves the quadratic equation `c*x^2 + b*x + a = 0`.
pub fn solve_quadratic<S: Scalar>(c: S, b: S, a: S) -> (r: Vec<S>)
    ensures
        r@ == quadratic_roots(c, b, a),
        r@.len() <= 2,
{
    let mut solution: Vec<S> = Vec::new();
    let eps = S::epsilon();
    if c.abs().lt(&eps) {
        if let Some(value) = solve_linear(b, a) {
            solution.push(value);
        }
        assert(solution@ =~= option_seq(linear_root(b, a)));
    } else {
        let two = S::one().add(S::one());
        let four = two.add(two);
        let dscr = b.mul(b).sub(four.mul(c).mul(a));
        let two_c = two.mul(c);
        if eps.lt(&dscr) {
            let sq = dscr.sqrt();
            solution.push(b.neg().add(sq).div(two_c));
            solution.push(b.neg().sub(sq).div(two_c));
        } else if !dscr.lt(&eps.neg()) {
            solution.push(b.neg().div(two_c));
        }
        assert(solution@ =~= quadratic_roots(c, b, a));
    }
    solution
}


pub open spec fn nine<S: Scalar>() -> S {
    S::spec_add(S::spec_add(three::<S>(), three::<S>()), three::<S>())
}

pub open spec fn twenty_seven<S: Scalar>() -> S {
    S::spec_add(S::spec_add(nine::<S>(), nine::<S>()), nine::<S>())
}

/// `2*pi/3`.
pub open spec fn two_thirds_pi<S: Scalar>() -> S {
    S::spec_mul(two::<S>(), S::spec_frac_pi_3())
}

/// The discriminant `a^2/4 + b^3/27` of `x^3 + b*x + a`.
pub open spec fn depressed_discriminant<S: Scalar>(b: S, a: S) -> S {
    let four = S::spec_add(two::<S>(), two::<S>());
    S::spec_add(
        S::spec_div(S::spec_mul(a, a), four),
        S::spec_div(S::spec_mul(S::spec_mul(b, b), b), twenty_seven::<S>()),
    )
}

/// The three real roots of `x^3 + b*x + a` by the trigonometric method.
pub open spec fn depressed_trig_roots<S: Scalar>(b: S, a: S) -> Seq<S> {
    let four = S::spec_add(two::<S>(), two::<S>());
    let sq = S::spec_sqrt(S::spec_div(S::spec_mul(S::spec_neg(four), b), three::<S>()));
    let cube = S::spec_mul(S::spec_mul(sq, sq), sq);
    let phi = S::spec_div(
        S::spec_acos(S::spec_div(S::spec_mul(S::spec_neg(four), a), cube)),
        three::<S>(),
    );
    seq![
        S::spec_mul(sq, S::spec_cos(phi)),
        S::spec_mul(sq, S::spec_cos(S::spec_add(phi, two_thirds_pi::<S>()))),
        S::spec_mul(sq, S::spec_cos(S::spec_sub(phi, two_thirds_pi::<S>()))),
    ]
}

/// The roots of `x^3 + b*x + a` by Cardano's formula, with the repeated root
/// `-x1/2` when the discriminant is within epsilon of zero.
pub open spec fn depressed_cardano_roots<S: Scalar>(b: S, a: S) -> Seq<S> {
    let d = depressed_discriminant(b, a);
    let sq = S::spec_sqrt(d);
    let a_half = S::spec_div(a, two::<S>());
    let x1 = S::spec_sub(S::spec_cbrt(S::spec_sub(sq, a_half)), S::spec_cbrt(S::spec_add(sq, a_half)));
    if lt(S::spec_abs(d), S::spec_epsilon()) {
        seq![x1, S::spec_div(S::spec_neg(x1), two::<S>())]
    } else {
        seq![x1]
    }
}

/// The roots of the depressed cubic `x^3 + b*x + a = 0`.
pub open spec fn depressed_roots<S: Scalar>(b: S, a: S) -> Seq<S> {
    let eps = S::spec_epsilon();
    if lt(S::spec_abs(b), eps) {
        seq![S::spec_neg(S::spec_cbrt(a))]
    } else if lt(S::spec_abs(a), eps) {
        quadratic_roots(S::spec_one(), S::spec_zero(), b).push(S::spec_zero())
    } else if lt(depressed_discriminant(b, a), S::spec_zero()) {
        depressed_trig_roots(b, a)
    } else {
        depressed_cardano_roots(b, a)
    }
}

/// Solves the depressed cubic equation `x^3 + b*x + a = 0`.
pub fn solve_cubic_depressed<S: Scalar>(b: S, a: S) -> (r: Vec<S>)
    ensures
        r@ == depressed_roots(b, a),
        r@.len() <= 3,
{
    let mut solution: Vec<S> = Vec::new();
    let eps = S::epsilon();
    if b.abs().lt(&eps) {
        solution.push(a.cbrt().neg());
        assert(solution@ =~= depressed_roots(b, a));
    } else if a.abs().lt(&eps) {
        let mut q = solve_quadratic(S::one(), S::zero(), b);
        solution.append(&mut q);
        solution.push(S::zero());
        assert(solution@ =~= depressed_roots(b, a));
    } else {
        let two = S::one().add(S::one());
        let three = two.add(S::one());
        let four = two.add(two);
        let nine = three.add(three).add(three);
        let twenty_seven = nine.add(nine).add(nine);
        let d = a.mul(a).div(four).add(b.mul(b).mul(b).div(twenty_seven));
        if d.lt(&S::zero()) {
            let sq = four.neg().mul(b).div(three).sqrt();
            let phi = four.neg().mul(a).div(sq.mul(sq).mul(sq)).acos().div(three);
            let two_third_pi = two.mul(S::frac_pi_3());
            solution.push(sq.mul(phi.cos()));
            solution.push(sq.mul(phi.add(two_third_pi).cos()));
            solution.push(sq.mul(phi.sub(two_third_pi).cos()));
        } else {
            let sq = d.sqrt();
            let a_half = a.div(two);
            let x1 = sq.sub(a_half).cbrt().sub(sq.add(a_half).cbrt());
            solution.push(x1);
            if d.abs().lt(&eps) {
                solution.push(x1.neg().div(two));
            }
        }
        assert(solution@ =~= depressed_roots(b, a));
    }
    solution
}

/// The resolvent `q = (3b - c^2)/9` of `x^3 + c*x^2 + b*x + a`.
pub open spec fn resolvent_q<S: Scalar>(c: S, b: S) -> S {
    S::spec_div(S::spec_sub(S::spec_mul(three::<S>(), b), S::spec_mul(c, c)), nine::<S>())
}

/// The resolvent `r = (9cb - 27a - 2c^3)/54` of `x^3 + c*x^2 + b*x + a`.
pub open spec fn resolvent_r<S: Scalar>(c: S, b: S, a: S) -> S {
    let c_squared = S::spec_mul(c, c);
    let fifty_four = S::spec_add(twenty_seven::<S>(), twenty_seven::<S>());
    S::spec_div(
        S::spec_sub(
            S::spec_sub(
                S::spec_mul(S::spec_mul(nine::<S>(), c), b),
                S::spec_mul(twenty_seven::<S>(), a),
            ),
            S::spec_mul(S::spec_mul(two::<S>(), c_squared), c),
        ),
        fifty_four,
    )
}

/// The discriminant `q^3 + r^2` of the normalized cubic.
pub open spec fn normalized_discriminant<S: Scalar>(c: S, b: S, a: S) -> S {
    let q = resolvent_q(c, b);
    let r = resolvent_r(c, b, a);
    S::spec_add(S::spec_mul(S::spec_mul(q, q), q), S::spec_mul(r, r))
}

/// The three real roots of `x^3 + c*x^2 + b*x + a` by the trigonometric method.
pub open spec fn normalized_trig_roots<S: Scalar>(c: S, b: S, a: S) -> Seq<S> {
    let q = resolvent_q(c, b);
    let r = resolvent_r(c, b, a);
    let q3 = S::spec_mul(S::spec_mul(q, q), q);
    let c_thirds = S::spec_div(c, three::<S>());
    let phi_3 = S::spec_div(
        S::spec_acos(S::spec_div(r, S::spec_sqrt(S::spec_neg(q3)))),
        three::<S>(),
    );
    let sqrt_q_2 = S::spec_mul(two::<S>(), S::spec_sqrt(S::spec_neg(q)));
    seq![
        S::spec_sub(S::spec_mul(sqrt_q_2, S::spec_cos(phi_3)), c_thirds),
        S::spec_sub(
            S::spec_mul(sqrt_q_2, S::spec_cos(S::spec_sub(phi_3, two_thirds_pi::<S>()))),
            c_thirds,
        ),
        S::spec_sub(
            S::spec_mul(sqrt_q_2, S::spec_cos(S::spec_add(phi_3, two_thirds_pi::<S>()))),
            c_thirds,
        ),
    ]
}

/// The roots of `x^3 + c*x^2 + b*x + a` by Cardano's formula: `s + t - c/3`,
/// and the repeated root `-(s + t)/2 - c/3` when `s` and `t` coincide and
/// `s + t` is away from zero. A discriminant just below zero counts as zero.
pub open spec fn normalized_cardano_roots<S: Scalar>(c: S, b: S, a: S) -> Seq<S> {
    let r = resolvent_r(c, b, a);
    let d = normalized_discriminant(c, b, a);
    let sq = S::spec_sqrt(if lt(d, S::spec_zero()) { S::spec_zero() } else { d });
    let s = S::spec_cbrt(S::spec_add(r, sq));
    let t = S::spec_cbrt(S::spec_sub(r, sq));
    let c_thirds = S::spec_div(c, three::<S>());
    let x1 = S::spec_sub(S::spec_add(s, t), c_thirds);
    if lt(S::spec_abs(S::spec_sub(s, t)), S::spec_epsilon()) && lt(
        S::spec_epsilon(),
        S::spec_abs(S::spec_add(s, t)),
    ) {
        seq![x1, S::spec_sub(S::spec_div(S::spec_neg(S::spec_add(s, t)), two::<S>()), c_thirds)]
    } else {
        seq![x1]
    }
}

/// The roots of the normalized cubic `x^3 + c*x^2 + b*x + a = 0`.
pub open spec fn normalized_roots<S: Scalar>(c: S, b: S, a: S) -> Seq<S> {
    let eps = S::spec_epsilon();
    if lt(S::spec_abs(c), eps) {
        depressed_roots(b, a)
    } else if lt(normalized_discriminant(c, b, a), S::spec_neg(eps)) {
        normalized_trig_roots(c, b, a)
    } else {
        normalized_cardano_roots(c, b, a)
    }
}

/// Solves the normalized cubic equation `x^3 + c*x^2 + b*x + a = 0`.
pub fn solve_cubic_normalized<S: Scalar>(c: S, b: S, a: S) -> (r: Vec<S>)
    ensures
        r@ == normalized_roots(c, b, a),
        r@.len() <= 3,
{
    let eps = S::epsilon();
    if c.abs().lt(&eps) {
        solve_cubic_depressed(b, a)
    } else {
        let mut solution: Vec<S> = Vec::new();
        let two = S::one().add(S::one());
        let three = two.add(S::one());
        let nine = three.add(three).add(three);
        let twenty_seven = nine.add(nine).add(nine);
        let fifty_four = twenty_seven.add(twenty_seven);
        let c_squared = c.mul(c);
        let q = three.mul(b).sub(c_squared).div(nine);
        let r = nine.mul(c).mul(b).sub(twenty_seven.mul(a)).sub(two.mul(c_squared).mul(c)).div(
            fifty_four,
        );
        let q3 = q.mul(q).mul(q);
        let d = q3.add(r.mul(r));
        let c_thirds = c.div(three);
        if d.lt(&eps.neg()) {
            let phi_3 = r.div(q3.neg().sqrt()).acos().div(three);
            let sqrt_q_2 = two.mul(q.neg().sqrt());
            let two_third_pi = two.mul(S::frac_pi_3());
            solution.push(sqrt_q_2.mul(phi_3.cos()).sub(c_thirds));
            solution.push(sqrt_q_2.mul(phi_3.sub(two_third_pi).cos()).sub(c_thirds));
            solution.push(sqrt_q_2.mul(phi_3.add(two_third_pi).cos()).sub(c_thirds));
        } else {
            let d = if d.lt(&S::zero()) {
                S::zero()
            } else {
                d
            };
            let d = d.sqrt();
            let s = r.add(d).cbrt();
            let t = r.sub(d).cbrt();
            solution.push(s.add(t).sub(c_thirds));
            if s.sub(t).abs().lt(&eps) && eps.lt(&s.add(t).abs()) {
                solution.push(s.add(t).neg().div(two).sub(c_thirds));
            }
        }
        assert(solution@ =~= normalized_roots(c, b, a));
        solution
    }
}

/// The roots of the cubic `d*x^3 + c*x^2 + b*x + a = 0`: the quadratic when
/// `d` is within epsilon of zero, otherwise the equation divided through by `d`.
pub open spec fn cubic_roots<S: Scalar>(d: S, c: S, b: S, a: S) -> Seq<S> {
    let eps = S::spec_epsilon();
    if lt(S::spec_abs(d), eps) {
        quadratic_roots(c, b, a)
    } else if lt(S::spec_abs(c), eps) {
        depressed_roots(S::spec_div(b, d), S::spec_div(a, d))
    } else {
        normalized_roots(S::spec_div(c, d), S::spec_div(b, d), S::spec_div(a, d))
    }
}

/// Solves the cubic equation `d*x^3 + c*x^2 + b*x + a = 0`.
pub fn solve_cubic<S: Scalar>(d: S, c: S, b: S, a: S) -> (r: Vec<S>)
    ensures
        r@ == cubic_roots(d, c, b, a),
        r@.len() <= 3,
{
    let eps = S::epsilon();
    if d.abs().lt(&eps) {
        solve_quadratic(c, b, a)
    } else if c.abs().lt(&eps) {
        solve_cubic_depressed(b.div(d), a.div(d))
    } else {
        solve_cubic_normalized(c.div(d), b.div(d), a.div(d))
    }
}

} // verus!
