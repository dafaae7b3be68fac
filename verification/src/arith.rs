//! Small nonlinear-arithmetic facts used by the geometry proofs.

use vstd::arithmetic::mul::{
    lemma_mul_basics, lemma_mul_is_associative, lemma_mul_is_commutative,
    lemma_mul_is_distributive_add, lemma_mul_is_distributive_sub,
    lemma_mul_is_distributive_sub_other_way,
};
use vstd::prelude::*;

verus! {

/// A product is bounded by the product of the factors' bounds.
pub proof fn lemma_mul_le(a: int, b: int, m: int, n: int)
    requires
        -m <= a <= m,
        -n <= b <= n,
    ensures
        -(m * n) <= a * b <= m * n,
{
    assert(-(m * n) <= a * b <= m * n) by (nonlinear_arith)
        requires
            -m <= a <= m,
            -n <= b <= n,
    ;
}

/// Cramer's rule for the intersection system, over the coordinate
/// differences `a = x1 - x2`, `b = y1 - y2`, `e = x1 - x3`, `f = y1 - y3`:
/// the point taken on the segment (parameter `t`) is the same point taken on
/// the ray (parameter `u`).
pub proof fn lemma_cramer(a: int, b: int, e: int, f: int, dx: int, dy: int, d: int, t: int, u: int)
    requires
        d == b * dx - a * dy,
        t == f * dx - e * dy,
        u == b * e - a * f,
    ensures
        e * d == u * dx + t * a,
        f * d == u * dy + t * b,
{
    lemma_mul_is_distributive_sub(e, b * dx, a * dy);
    lemma_mul_is_associative(e, b, dx);
    lemma_mul_is_associative(e, a, dy);
    assert(e * d == (e * b) * dx - (e * a) * dy);

    lemma_mul_is_distributive_sub_other_way(a, f * dx, e * dy);
    lemma_mul_is_commutative(f * dx, a);
    lemma_mul_is_associative(a, f, dx);
    lemma_mul_is_commutative(e * dy, a);
    lemma_mul_is_associative(a, e, dy);
    lemma_mul_is_commutative(a, e);
    assert(t * a == (a * f) * dx - (e * a) * dy);

    lemma_mul_is_distributive_sub_other_way(dx, b * e, a * f);
    lemma_mul_is_commutative(e, b);
    assert(u * dx == (b * e) * dx - (a * f) * dx);
    lemma_mul_is_commutative(a, f);
    assert(e * d == u * dx + t * a);

    lemma_mul_is_distributive_sub(f, b * dx, a * dy);
    lemma_mul_is_associative(f, b, dx);
    lemma_mul_is_associative(f, a, dy);
    assert(f * d == (f * b) * dx - (f * a) * dy);

    lemma_mul_is_distributive_sub_other_way(b, f * dx, e * dy);
    lemma_mul_is_commutative(f * dx, b);
    lemma_mul_is_associative(b, f, dx);
    lemma_mul_is_commutative(e * dy, b);
    lemma_mul_is_associative(b, e, dy);
    lemma_mul_is_commutative(b, f);
    assert(t * b == (b * f) * dx - (b * e) * dy);

    lemma_mul_is_distributive_sub_other_way(dy, b * e, a * f);
    lemma_mul_is_commutative(f, a);
    assert(u * dy == (b * e) * dy - (a * f) * dy);
    assert(f * d == u * dy + t * b);
}

/// The Cramer identity survives flipping the signs of determinant and
/// numerators together, and rewrites to the offset of the stored point
/// numerator `nx = x1 * dd + tn * c` from the scaled origin `x3 * dd`;
/// here `c == x2 - x1 == 0 - a`.
pub proof fn lemma_point_on_ray(
    x1: int,
    x3: int,
    a: int,
    c: int,
    d: int,
    t: int,
    u: int,
    dx: int,
    dd: int,
    tn: int,
    un: int,
    nx: int,
)
    requires
        c == 0 - a,
        (x1 - x3) * d == u * dx + t * a,
        nx == x1 * dd + tn * c,
        (dd == d && tn == t && un == u) || (dd == 0 - d && tn == 0 - t && un == 0 - u),
    ensures
        nx - x3 * dd == un * dx,
{
    lemma_mul_is_distributive_sub_other_way(d, x1, x3);
    lemma_mul_is_distributive_sub(t, 0, a);
    lemma_mul_basics(t);
    if dd == d && tn == t && un == u {
        assert(nx - x3 * dd == un * dx);
    } else {
        lemma_mul_is_distributive_sub(x1, 0, d);
        lemma_mul_basics(x1);
        lemma_mul_is_distributive_sub(x3, 0, d);
        lemma_mul_basics(x3);
        lemma_mul_is_distributive_sub_other_way(c, 0, t);
        lemma_mul_basics(c);
        lemma_mul_is_distributive_sub_other_way(dx, 0, u);
        lemma_mul_basics(dx);
        assert(nx - x3 * dd == un * dx);
    }
}

/// Rearranging a product of four factors: `(p*q)*(r*s) == (p*r)*(q*s)`.
pub proof fn lemma_mul_shuffle(p: int, q: int, r: int, s: int)
    ensures
        (p * q) * (r * s) == (p * r) * (q * s),
{
    lemma_mul_is_associative(p * q, r, s);
    lemma_mul_is_associative(p, q, r);
    lemma_mul_is_commutative(q, r);
    lemma_mul_is_associative(p, r, q);
    lemma_mul_is_associative(p * r, q, s);
}

/// A squared offset that lies along `u * (dx, dy)` factors through `u`:
/// scaling by `m * m` turns it into the square of `u * m` times the squared
/// length of the direction.
pub proof fn lemma_dist_factor(nxo: int, nyo: int, u: int, dx: int, dy: int, m: int)
    requires
        nxo == u * dx,
        nyo == u * dy,
    ensures
        (nxo * nxo + nyo * nyo) * (m * m) == ((u * m) * (u * m)) * (dx * dx + dy * dy),
{
    let l = dx * dx + dy * dy;
    lemma_mul_shuffle(u, dx, u, dx);
    lemma_mul_shuffle(u, dy, u, dy);
    lemma_mul_is_distributive_add(u * u, dx * dx, dy * dy);
    assert(nxo * nxo + nyo * nyo == (u * u) * l);
    lemma_mul_shuffle(u, m, u, m);
    lemma_mul_is_associative(u * u, l, m * m);
    lemma_mul_is_commutative(l, m * m);
    lemma_mul_is_associative(u * u, m * m, l);
    assert((nxo * nxo + nyo * nyo) * (m * m) == ((u * u) * (m * m)) * l);
}

/// A point `x1 + (tn/dd) * (x2 - x1)` of the segment from `x1` to `x2`
/// (parameter between 0 and 1) stays between the two endpoints; all values
/// are scaled by the positive denominator `dd`.
pub proof fn lemma_convex_bound(x1: int, x2: int, dd: int, tn: int, nx: int)
    requires
        0 <= tn,
        tn <= dd,
        0 < dd,
        nx == x1 * dd + tn * (x2 - x1),
    ensures
        x1 <= x2 ==> x1 * dd <= nx && nx <= x2 * dd,
        x2 <= x1 ==> x2 * dd <= nx && nx <= x1 * dd,
{
    assert((x1 <= x2 ==> x1 * dd <= nx && nx <= x2 * dd) && (x2 <= x1 ==> x2 * dd <= nx && nx <= x1
        * dd)) by (nonlinear_arith)
        requires
            0 <= tn,
            tn <= dd,
            0 < dd,
            nx == x1 * dd + tn * (x2 - x1),
    ;
}

/// Transitivity of the cross-multiplied comparison of fractions
/// `va/a2 < vb/b2 <= vc/c2` (all denominators positive).
pub proof fn lemma_rat_lt_trans(va: int, vb: int, vc: int, a2: int, b2: int, c2: int)
    requires
        a2 > 0,
        b2 > 0,
        c2 > 0,
        va * b2 < vb * a2,
        !(vc * b2 < vb * c2),
    ensures
        va * c2 < vc * a2,
{
    assert(va * c2 < vc * a2) by (nonlinear_arith)
        requires
            a2 > 0,
            b2 > 0,
            c2 > 0,
            va * b2 < vb * a2,
            !(vc * b2 < vb * c2),
    ;
}

/// Halving a nonnegative length: the half is nonnegative and two halves do
/// not exceed the whole.
pub proof fn lemma_half_bounds(w: int)
    requires
        w >= 0,
    ensures
        0 <= w / 2,
        w / 2 + w / 2 <= w,
{
    vstd::arithmetic::div_mod::lemma_fundamental_div_mod(w, 2);
    vstd::arithmetic::div_mod::lemma_mod_bound(w, 2);
    vstd::arithmetic::div_mod::lemma_div_pos_is_pos(w, 2);
}

/// On nonnegative numbers, comparing squares is comparing the numbers.
pub proof fn lemma_sq_lt_iff(a: int, b: int)
    requires
        a >= 0,
        b >= 0,
    ensures
        a * a < b * b <==> a < b,
{
    assert(a * a < b * b <==> a < b) by (nonlinear_arith)
        requires
            a >= 0,
            b >= 0,
    ;
}

} // verus!
