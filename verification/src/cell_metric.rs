//! Lengths and angles of the edges of a cell, and positions in it: what the
//! edge vectors that `geometry` makes have to do with the lengths and the
//! angles that they were made of, and what Cartesian coordinates have to do
//! with fractional ones. Each statement is exact: it bounds, in whole units
//! of `10^-15`, how far rounding can take a length, a scalar product or a
//! coordinate from its value. `TOLERANCE` is `10^-9`.

use vstd::prelude::*;
use crate::geometry::{
    LatticeTrig, Vec3, basis_of, cartesian_of, combine, edge_c_y, edge_c_z_squared,
};
use crate::number::{
    Fixed, SCALE, fits, fixed_mul, lemma_int_sqrt_exists, lemma_round_div_is_near, round_div,
};

verus! {

/// A billionth, in units of a fixed-point number.
pub const TOLERANCE: Fixed = 1_000_000;

/// The scalar product of two vectors, in squares of units.
pub open spec fn dot(u: Vec3, v: Vec3) -> int {
    u.0 * v.0 + u.1 * v.1 + u.2 * v.2
}

/// The absolute value of `x`.
pub open spec fn magnitude(x: int) -> int {
    if x >= 0 {
        x
    } else {
        -x
    }
}

/// The magnitude of a product is at most the product of bounds of its factors.
pub proof fn lemma_product_magnitude(x: int, y: int, p: int, q: int)
    requires
        magnitude(x) <= p,
        magnitude(y) <= q,
    ensures
        magnitude(x * y) <= p * q,
{
    let ax = magnitude(x);
    let ay = magnitude(y);
    assert(0 <= ax * ay <= p * q) by (nonlinear_arith)
        requires
            0 <= ax <= p,
            0 <= ay <= q,
    ;
    assert(x * y == ax * ay || x * y == -(ax * ay)) by (nonlinear_arith)
        requires
            ax == x || ax == -x,
            ay == y || ay == -y,
    ;
}

/// What a rounded quotient leaves of the numerator is at most half the divisor.
pub proof fn lemma_rounding_remainder(n: int, d: int)
    requires
        d != 0,
    ensures
        2 * magnitude(n - round_div(n, d) * d) <= magnitude(d),
{
    lemma_round_div_is_near(n, d);
}

/// Where `s x = w - r`, the square of `x` is `(w^2 - 2 w r + r^2) / s^2`, with `s` the scale.
proof fn lemma_scaled_square(x: int, w: int, r: int)
    requires
        r == w - x * 1_000_000_000_000_000,
    ensures
        1_000_000_000_000_000_000_000_000_000_000 * (x * x) == w * w - 2 * (w * r) + r * r,
{
    let sx = x * 1_000_000_000_000_000;
    assert(sx * sx == 1_000_000_000_000_000_000_000_000_000_000 * (x * x)) by (nonlinear_arith)
        requires
            sx == x * 1_000_000_000_000_000,
    ;
    assert(sx * sx == w * w - 2 * (w * r) + r * r) by (nonlinear_arith)
        requires
            sx == w - r,
    ;
}

/// The squares of the two coordinates of the edge b add up to `b^2` to within
/// `18450 |b|` squares of units.
proof fn lemma_edge_b_square(b: int, t: LatticeTrig)
    requires
        t.well_formed(),
        fits(b),
    ensures
        ({
            let x = fixed_mul(b, t.cos_gamma());
            let y = fixed_mul(b, t.sin_gamma());
            magnitude(x * x + y * y - b * b) <= 18450 * magnitude(b)
        }),
{
    let s: int = 1_000_000_000_000_000;
    let cg = t.cos_gamma();
    let sg = t.sin_gamma();
    let x = fixed_mul(b, cg);
    let y = fixed_mul(b, sg);
    let wide_x = b * cg;
    let wide_y = b * sg;
    lemma_rounding_remainder(wide_x, s);
    lemma_rounding_remainder(wide_y, s);
    let rx = wide_x - x * s;
    let ry = wide_y - y * s;
    let ab = magnitude(b);
    let bb = b * b;
    lemma_scaled_square(x, wide_x, rx);
    lemma_scaled_square(y, wide_y, ry);
    let cc = cg * cg;
    let ss = sg * sg;
    let delta = cc + ss - 1_000_000_000_000_000_000_000_000_000_000;
    assert(s * s == 1_000_000_000_000_000_000_000_000_000_000) by (nonlinear_arith)
        requires
            s == 1_000_000_000_000_000,
    ;
    assert(wide_x * wide_x == bb * cc) by (nonlinear_arith)
        requires
            wide_x == b * cg,
            bb == b * b,
            cc == cg * cg,
    ;
    assert(wide_y * wide_y == bb * ss) by (nonlinear_arith)
        requires
            wide_y == b * sg,
            bb == b * b,
            ss == sg * sg,
    ;
    assert(bb * cc + bb * ss == 1_000_000_000_000_000_000_000_000_000_000 * bb + bb * delta)
        by (nonlinear_arith)
        requires
            delta == cc + ss - 1_000_000_000_000_000_000_000_000_000_000,
    ;
    assert(bb == ab * ab && bb >= 0) by (nonlinear_arith)
        requires
            bb == b * b,
            ab == b || ab == -b,
    ;
    // b^2 <= |b| * 9224 * 10^15, since |b| is at most 2^63
    assert(ab * ab <= ab * 9_224_000_000_000_000_000) by (nonlinear_arith)
        requires
            0 <= ab <= 9_224_000_000_000_000_000,
    ;
    lemma_product_magnitude(bb, delta, bb, 2 * s);
    lemma_product_magnitude(b, cg, ab, s);
    lemma_product_magnitude(b, sg, ab, s);
    lemma_product_magnitude(wide_x, rx, ab * s, 500_000_000_000_000);
    lemma_product_magnitude(wide_y, ry, ab * s, 500_000_000_000_000);
    lemma_product_magnitude(rx, rx, 500_000_000_000_000, 500_000_000_000_000);
    lemma_product_magnitude(ry, ry, 500_000_000_000_000, 500_000_000_000_000);
    assert(bb * (2 * s) == 2_000_000_000_000_000 * bb) by (nonlinear_arith)
        requires
            s == 1_000_000_000_000_000,
    ;
    assert((ab * s) * 500_000_000_000_000 == 500_000_000_000_000_000_000_000_000_000 * ab)
        by (nonlinear_arith)
        requires
            s == 1_000_000_000_000_000,
    ;
    assert(ab * 9_224_000_000_000_000_000 == 9_224_000_000_000_000_000 * ab) by (nonlinear_arith);
}

/// The edge b has the length `b` to within a billionth: the squares of its
/// two coordinates add up to a number between the squares of `|b|` less a
/// billionth and `|b|` and a billionth.
pub proof fn lemma_edge_b_length(b: int, t: LatticeTrig)
    requires
        t.well_formed(),
        fits(b),
    ensures
        ({
            let x = fixed_mul(b, t.cos_gamma());
            let y = fixed_mul(b, t.sin_gamma());
            let least = magnitude(b) - TOLERANCE;
            let most = magnitude(b) + TOLERANCE;
            &&& x * x + y * y <= most * most
            &&& least >= 0 ==> least * least <= x * x + y * y
        }),
{
    lemma_edge_b_square(b, t);
    let ab = magnitude(b);
    let tol: int = 1_000_000;
    assert(b * b == ab * ab) by (nonlinear_arith)
        requires
            ab == b || ab == -b,
    ;
    assert((ab + tol) * (ab + tol) == ab * ab + 2_000_000 * ab + 1_000_000_000_000)
        by (nonlinear_arith)
        requires
            tol == 1_000_000,
    ;
    assert((ab - tol) * (ab - tol) == ab * ab - 2_000_000 * ab + 1_000_000_000_000)
        by (nonlinear_arith)
        requires
            tol == 1_000_000,
    ;
}

/// The edge c has the length `c`, as nearly as its third coordinate can say
/// it: with that coordinate one unit longer the edge would be longer than `c`.
pub proof fn lemma_edge_c_length(a: int, b: int, c: int, t: LatticeTrig)
    requires
        basis_of(a, b, c, t) is Ok,
    ensures
        ({
            let w = basis_of(a, b, c, t).unwrap().2;
            &&& w.2 >= 0
            &&& dot(w, w) <= c * c < dot((w.0, w.1, w.2 + 1), (w.0, w.1, w.2 + 1))
        }),
{
    let r = lemma_int_sqrt_exists(edge_c_z_squared(c, t));
}

/// The edges b and c rise from the axis and the plane before them wherever
/// the exact values are large enough to be seen: the second coordinate of b
/// is positive where `b sin gamma` is at least half a unit, and the third
/// coordinate of c is positive where its square is at least a unit's square.
pub proof fn lemma_edges_rise(a: int, b: int, c: int, t: LatticeTrig)
    requires
        basis_of(a, b, c, t) is Ok,
    ensures
        ({
            let (u, v, w) = basis_of(a, b, c, t).unwrap();
            &&& u.1 == 0 && u.2 == 0 && v.2 == 0
            &&& 2 * (b * t.sin_gamma()) >= SCALE ==> v.1 > 0
            &&& edge_c_z_squared(c, t) >= 1 ==> w.2 > 0
        }),
{
    let (u, v, w) = basis_of(a, b, c, t).unwrap();
    let r = lemma_int_sqrt_exists(edge_c_z_squared(c, t));
    assert(w.2 == r);
    if edge_c_z_squared(c, t) >= 1 && r == 0 {
        assert((r + 1) * (r + 1) == 1) by (nonlinear_arith)
            requires
                r == 0,
        ;
    }
    let n = b * t.sin_gamma();
    assert(SCALE == 1_000_000_000_000_000);
    assert(v.1 == round_div(n, 1_000_000_000_000_000));
    if 2 * n >= SCALE {
        assert((2 * n + 1_000_000_000_000_000) / 2_000_000_000_000_000int >= 1);
    }
}

/// `a` times the rounded product of `b` and `k` differs from `a b k` by at
/// most `|a| / 2`.
proof fn lemma_projection(a: int, b: int, k: int)
    ensures
        2 * magnitude(SCALE * (a * fixed_mul(b, k)) - a * (b * k)) <= magnitude(a) * SCALE,
{
    let x = fixed_mul(b, k);
    let wide = b * k;
    lemma_rounding_remainder(wide, 1_000_000_000_000_000);
    let r = wide - x * 1_000_000_000_000_000;
    let ar = a * r;
    assert(1_000_000_000_000_000 * (a * x) - a * wide == -ar) by (nonlinear_arith)
        requires
            r == wide - x * 1_000_000_000_000_000,
            ar == a * r,
    ;
    let r2 = 2 * r;
    lemma_product_magnitude(a, r2, magnitude(a), 1_000_000_000_000_000);
    assert(a * r2 == 2 * ar) by (nonlinear_arith)
        requires
            r2 == 2 * r,
            ar == a * r,
    ;
    assert(SCALE * (a * x) == 1_000_000_000_000_000 * (a * x));
    assert(magnitude(a) * SCALE == magnitude(a) * 1_000_000_000_000_000);
}

/// The scalar product of the edges a and b is `a b cos gamma` to within the
/// rounding of one coordinate: it differs from it by at most `|a| / 2`.
pub proof fn lemma_angle_gamma(a: int, b: int, t: LatticeTrig)
    ensures
        2 * magnitude(SCALE * (a * fixed_mul(b, t.cos_gamma())) - a * (b * t.cos_gamma()))
            <= magnitude(a) * SCALE,
{
    lemma_projection(a, b, t.cos_gamma());
}

/// The scalar product of the edges a and c is `a c cos beta` to within the
/// rounding of one coordinate: it differs from it by at most `|a| / 2`.
pub proof fn lemma_angle_beta(a: int, c: int, t: LatticeTrig)
    ensures
        2 * magnitude(SCALE * (a * fixed_mul(c, t.cos_beta())) - a * (c * t.cos_beta()))
            <= magnitude(a) * SCALE,
{
    lemma_projection(a, c, t.cos_beta());
}

/// A product of fixed-point numbers is at most half a unit away from the
/// exact product.
pub proof fn lemma_fixed_mul_is_near(a: int, b: int)
    ensures
        2 * magnitude(fixed_mul(a, b) * SCALE - a * b) <= SCALE,
{
    lemma_rounding_remainder(a * b, 1_000_000_000_000_000);
}

/// A sum of three products is at most three halves of a unit away from the exact sum.
proof fn lemma_combine_is_near(f: Vec3, u: int, v: int, w: int)
    ensures
        2 * magnitude(combine(f, u, v, w) * SCALE - (f.0 * u + f.1 * v + f.2 * w)) <= 3 * SCALE,
{
    lemma_fixed_mul_is_near(f.0, u);
    lemma_fixed_mul_is_near(f.1, v);
    lemma_fixed_mul_is_near(f.2, w);
}

/// A Cartesian position is the linear combination of the edges of the cell
/// with the fractional coordinates: each coordinate is at most three halves
/// of a unit away from the exact sum `f.0 * a + f.1 * b + f.2 * c`.
pub proof fn lemma_cartesian_is_linear_combination(basis: (Vec3, Vec3, Vec3), f: Vec3)
    ensures
        ({
            let p = cartesian_of(basis, f);
            let (a, b, c) = basis;
            &&& 2 * magnitude(p.0 * SCALE - (f.0 * a.0 + f.1 * b.0 + f.2 * c.0)) <= 3 * SCALE
            &&& 2 * magnitude(p.1 * SCALE - (f.0 * a.1 + f.1 * b.1 + f.2 * c.1)) <= 3 * SCALE
            &&& 2 * magnitude(p.2 * SCALE - (f.0 * a.2 + f.1 * b.2 + f.2 * c.2)) <= 3 * SCALE
        }),
{
    let (a, b, c) = basis;
    lemma_combine_is_near(f, a.0, b.0, c.0);
    lemma_combine_is_near(f, a.1, b.1, c.1);
    lemma_combine_is_near(f, a.2, b.2, c.2);
}

/// Whether the fractional coordinates `h` are `s` times `f` and `g`: whether
/// `h = (s / SCALE) f + g` exactly.
pub open spec fn is_combination(h: Vec3, s: int, f: Vec3, g: Vec3) -> bool {
    &&& h.0 * SCALE == s * f.0 + SCALE * g.0
    &&& h.1 * SCALE == s * f.1 + SCALE * g.1
    &&& h.2 * SCALE == s * f.2 + SCALE * g.2
}

/// One coordinate of a combination of fractional coordinates.
proof fn lemma_combine_is_linear(h: Vec3, s: int, f: Vec3, g: Vec3, u: int, v: int, w: int)
    requires
        is_combination(h, s, f, g),
    ensures
        magnitude(
            2 * (SCALE * combine(h, u, v, w) - s * combine(f, u, v, w) - SCALE * combine(
                g,
                u,
                v,
                w,
            )),
        ) <= 6 * SCALE + 3 * magnitude(s),
{
    let k: int = 1_000_000_000_000_000;
    let exact_h = h.0 * u + h.1 * v + h.2 * w;
    let exact_f = f.0 * u + f.1 * v + f.2 * w;
    let exact_g = g.0 * u + g.1 * v + g.2 * w;
    lemma_combine_is_near(h, u, v, w);
    lemma_combine_is_near(f, u, v, w);
    lemma_combine_is_near(g, u, v, w);
    let ph = combine(h, u, v, w);
    let pf = combine(f, u, v, w);
    let pg = combine(g, u, v, w);
    let eh = ph * k - exact_h;
    let ef = pf * k - exact_f;
    let eg = pg * k - exact_g;
    assert(k * (h.0 * u) == s * (f.0 * u) + k * (g.0 * u)) by (nonlinear_arith)
        requires
            h.0 * k == s * f.0 + k * g.0,
    ;
    assert(k * (h.1 * v) == s * (f.1 * v) + k * (g.1 * v)) by (nonlinear_arith)
        requires
            h.1 * k == s * f.1 + k * g.1,
    ;
    assert(k * (h.2 * w) == s * (f.2 * w) + k * (g.2 * w)) by (nonlinear_arith)
        requires
            h.2 * k == s * f.2 + k * g.2,
    ;
    assert(s * exact_f == s * (f.0 * u) + s * (f.1 * v) + s * (f.2 * w)) by (nonlinear_arith)
        requires
            exact_f == f.0 * u + f.1 * v + f.2 * w,
    ;
    // k (k ph - s pf - k pg) = k eh - s ef - k eg
    let sef = s * ef;
    let spf = s * pf;
    assert(sef == k * spf - s * exact_f) by (nonlinear_arith)
        requires
            ef == pf * k - exact_f,
            sef == s * ef,
            spf == s * pf,
    ;
    let ef2 = 2 * ef;
    lemma_product_magnitude(s, ef2, magnitude(s), 3 * k);
    assert(s * ef2 == 2 * sef) by (nonlinear_arith)
        requires
            ef2 == 2 * ef,
            sef == s * ef,
    ;
    assert(magnitude(s) * (3 * k) == 3_000_000_000_000_000 * magnitude(s)) by (nonlinear_arith)
        requires
            k == 1_000_000_000_000_000,
    ;
    assert(k * (k * ph - spf - k * pg) == k * eh - sef - k * eg);
    assert(SCALE * ph - s * pf - SCALE * pg == k * ph - spf - k * pg);
}

/// The change from fractional to Cartesian coordinates is linear to within
/// rounding. Where `h` is `s` times `f` and `g`, the position of `h` differs
/// in each coordinate from `s` times the position of `f` and the position of
/// `g` by at most three units and three halves of `|s| / SCALE` units: less
/// than a billionth for every `s` that a fixed-point number can hold.
pub proof fn lemma_cartesian_is_linear(basis: (Vec3, Vec3, Vec3), h: Vec3, s: int, f: Vec3, g: Vec3)
    requires
        is_combination(h, s, f, g),
    ensures
        ({
            let ph = cartesian_of(basis, h);
            let pf = cartesian_of(basis, f);
            let pg = cartesian_of(basis, g);
            let bound = 6 * SCALE + 3 * magnitude(s);
            &&& magnitude(2 * (SCALE * ph.0 - s * pf.0 - SCALE * pg.0)) <= bound
            &&& magnitude(2 * (SCALE * ph.1 - s * pf.1 - SCALE * pg.1)) <= bound
            &&& magnitude(2 * (SCALE * ph.2 - s * pf.2 - SCALE * pg.2)) <= bound
            &&& cartesian_of(basis, (0int, 0int, 0int)) == (0int, 0int, 0int)
        }),
{
    let (a, b, c) = basis;
    lemma_combine_is_linear(h, s, f, g, a.0, b.0, c.0);
    lemma_combine_is_linear(h, s, f, g, a.1, b.1, c.1);
    lemma_combine_is_linear(h, s, f, g, a.2, b.2, c.2);
    assert(0 * a.0 == 0 && 0 * b.0 == 0 && 0 * c.0 == 0) by (nonlinear_arith);
    assert(0 * a.1 == 0 && 0 * b.1 == 0 && 0 * c.1 == 0) by (nonlinear_arith);
    assert(0 * a.2 == 0 && 0 * b.2 == 0 && 0 * c.2 == 0) by (nonlinear_arith);
    lemma_round_div_is_near(0, 1_000_000_000_000_000);
    assert(fixed_mul(0, a.0) == 0);
}

/// Where `s x = u - q` and `s y = v - r`, the product of `x` and `y` is
/// `(u v - u r - q v + q r) / s^2`, with `s` the scale.
proof fn lemma_scaled_product(x: int, y: int, u: int, v: int, q: int, r: int)
    requires
        q == u - x * 1_000_000_000_000_000,
        r == v - y * 1_000_000_000_000_000,
    ensures
        1_000_000_000_000_000_000_000_000_000_000 * (x * y) == u * v - u * r - q * v + q * r,
{
    let sx = x * 1_000_000_000_000_000;
    let sy = y * 1_000_000_000_000_000;
    assert(sx * sy == 1_000_000_000_000_000_000_000_000_000_000 * (x * y)) by (nonlinear_arith)
        requires
            sx == x * 1_000_000_000_000_000,
            sy == y * 1_000_000_000_000_000,
    ;
    assert(sx * sy == u * v - u * r - q * v + q * r) by (nonlinear_arith)
        requires
            sx == u - q,
            sy == v - r,
    ;
}

/// The scalar product of the edges b and c is `b c cos alpha` to within
/// rounding: where `x`, `y` are the coordinates of b and `u`, `v` the first
/// two of c, `x u + y v` differs from `b c cos alpha` by at most
/// `|b c| / 10^15 + 2 |b| + |c| + |v| + 1`.
pub proof fn lemma_angle_alpha(b: int, c: int, t: LatticeTrig)
    requires
        t.well_formed(),
        t.sin_gamma() != 0,
    ensures
        ({
            let x = fixed_mul(b, t.cos_gamma());
            let y = fixed_mul(b, t.sin_gamma());
            let u = fixed_mul(c, t.cos_beta());
            let v = edge_c_y(c, t);
            magnitude(
                1_000_000_000_000_000_000_000_000_000_000 * (x * u + y * v) - SCALE * ((b * c) * t.cos_alpha()),
            ) <= SCALE * magnitude(b * c) + 1_000_000_000_000_000_000_000_000_000_000 * (2 * magnitude(b)
                + magnitude(c) + magnitude(v) + 1)
        }),
{
    let ca = t.cos_alpha();
    let cb = t.cos_beta();
    let cg = t.cos_gamma();
    let sg = t.sin_gamma();
    let x = fixed_mul(b, cg);
    let y = fixed_mul(b, sg);
    let u = fixed_mul(c, cb);
    let m = fixed_mul(cb, cg);
    let spread = ca - m;
    let v = edge_c_y(c, t);
    assert(v == round_div(c * spread, sg));
    let wide_x = b * cg;
    let wide_y = b * sg;
    let wide_u = c * cb;
    let wide_m = cb * cg;
    let wide_v = c * spread;
    lemma_rounding_remainder(wide_x, 1_000_000_000_000_000);
    lemma_rounding_remainder(wide_y, 1_000_000_000_000_000);
    lemma_rounding_remainder(wide_u, 1_000_000_000_000_000);
    lemma_rounding_remainder(wide_m, 1_000_000_000_000_000);
    lemma_rounding_remainder(wide_v, sg);
    let r1 = wide_x - x * 1_000_000_000_000_000;
    let r2 = wide_y - y * 1_000_000_000_000_000;
    let r3 = wide_u - u * 1_000_000_000_000_000;
    let r4 = wide_m - m * 1_000_000_000_000_000;
    let r5 = wide_v - v * sg;
    let bc = b * c;
    // 10^18 x u = X U - X r3 - r1 U + r1 r3
    lemma_scaled_product(x, u, wide_x, wide_u, r1, r3);
    // X U = (b c) (cos beta cos gamma)
    assert(wide_x * wide_u == bc * wide_m) by (nonlinear_arith)
        requires
            wide_x == b * cg,
            wide_u == c * cb,
            wide_m == cb * cg,
            bc == b * c,
    ;
    // 10^15 y v = Y v - r2 v, and Y v = b (sin gamma v) = b (c spread - r5)
    let yv = y * v;
    let sgv = v * sg;
    assert(1_000_000_000_000_000 * yv == wide_y * v - r2 * v) by (nonlinear_arith)
        requires
            yv == y * v,
            r2 == wide_y - y * 1_000_000_000_000_000,
    ;
    assert(wide_y * v == b * sgv) by (nonlinear_arith)
        requires
            wide_y == b * sg,
            sgv == v * sg,
    ;
    assert(b * sgv == b * wide_v - b * r5) by (nonlinear_arith)
        requires
            sgv == wide_v - r5,
    ;
    assert(b * wide_v == bc * spread) by (nonlinear_arith)
        requires
            wide_v == c * spread,
            bc == b * c,
    ;
    // 10^15 (b c) spread = 10^15 (b c) cos alpha - (b c) (cos beta cos gamma) + (b c) r4
    assert(1_000_000_000_000_000 * (bc * spread) == 1_000_000_000_000_000 * (bc * ca) - bc * wide_m + bc * r4)
        by (nonlinear_arith)
        requires
            spread == ca - m,
            r4 == wide_m - m * 1_000_000_000_000_000,
    ;
    let e1 = wide_x * r3;
    let e2 = r1 * wide_u;
    let e3 = r1 * r3;
    let e4 = bc * r4;
    let e5 = b * r5;
    let e6 = r2 * v;
    assert(1_000_000_000_000_000_000_000_000_000_000 * (x * u + y * v) == 1_000_000_000_000_000_000_000_000_000_000 * (x * u)
        + 1_000_000_000_000_000 * (1_000_000_000_000_000 * yv));
    assert(1_000_000_000_000_000_000_000_000_000_000 * (x * u + y * v) - 1_000_000_000_000_000 * (bc * ca) == -e1 - e2 + e3
        + e4 - 1_000_000_000_000_000 * e5 - 1_000_000_000_000_000 * e6);
    lemma_product_magnitude(b, cg, magnitude(b), 1_000_000_000_000_000);
    lemma_product_magnitude(c, cb, magnitude(c), 1_000_000_000_000_000);
    lemma_product_magnitude(wide_x, r3, magnitude(b) * 1_000_000_000_000_000, 1_000_000_000_000_000);
    lemma_product_magnitude(r1, wide_u, 1_000_000_000_000_000, magnitude(c) * 1_000_000_000_000_000);
    lemma_product_magnitude(r1, r3, 1_000_000_000_000_000, 1_000_000_000_000_000);
    lemma_product_magnitude(bc, r4, magnitude(bc), 1_000_000_000_000_000);
    lemma_product_magnitude(b, r5, magnitude(b), 1_000_000_000_000_000);
    lemma_product_magnitude(r2, v, 1_000_000_000_000_000, magnitude(v));
    assert((magnitude(b) * 1_000_000_000_000_000) * 1_000_000_000_000_000 == 1_000_000_000_000_000_000_000_000_000_000
        * magnitude(b)) by (nonlinear_arith);
    assert(1_000_000_000_000_000 * (magnitude(c) * 1_000_000_000_000_000) == 1_000_000_000_000_000_000_000_000_000_000
        * magnitude(c)) by (nonlinear_arith);
    assert(SCALE * (bc * ca) == 1_000_000_000_000_000 * (bc * ca));
    assert(SCALE * magnitude(bc) == magnitude(bc) * 1_000_000_000_000_000);
}

/// Whether the edges `basis` have the lengths `a`, `b` and `c` and lie as
/// the edges of a cell do: a along x with the length `a` exactly; b in the
/// plane of x and y with the length `b` to within a billionth; and c, not
/// below that plane, with the length `c` to within one unit in its third
/// coordinate.
pub open spec fn has_lengths(basis: (Vec3, Vec3, Vec3), a: int, b: int, c: int) -> bool {
    let (u, v, w) = basis;
    let least = magnitude(b) - TOLERANCE;
    let most = magnitude(b) + TOLERANCE;
    &&& u == (a, 0int, 0int)
    &&& v.2 == 0
    &&& w.2 >= 0
    &&& dot(u, u) == a * a
    &&& dot(v, v) <= most * most
    &&& least >= 0 ==> least * least <= dot(v, v)
    &&& dot(w, w) <= c * c < dot((w.0, w.1, w.2 + 1), (w.0, w.1, w.2 + 1))
}

/// The edges of a cell have their lengths.
pub proof fn lemma_edges_have_lengths(a: int, b: int, c: int, t: LatticeTrig)
    requires
        t.well_formed(),
        fits(b),
        basis_of(a, b, c, t) is Ok,
    ensures
        has_lengths(basis_of(a, b, c, t).unwrap(), a, b, c),
{
    lemma_edges_have_lengths_and_angles(a, b, c, t);
}

/// The edges of a cell have the lengths and make the angles that they were
/// made of. With `u`, `v`, `w` the edges a, b, c: `u` lies along x and its
/// length is `a`; the length of `v` is `b` to within a billionth; the length
/// of `w` is `c` to within one unit in its third coordinate; and the scalar
/// products `u.v`, `u.w`, `v.w` are `a b cos gamma`, `a c cos beta`,
/// `b c cos alpha` to within the bounds of `lemma_angle_gamma`,
/// `lemma_angle_beta`, `lemma_angle_alpha`.
pub proof fn lemma_edges_have_lengths_and_angles(a: int, b: int, c: int, t: LatticeTrig)
    requires
        t.well_formed(),
        fits(b),
        basis_of(a, b, c, t) is Ok,
    ensures
        ({
            let (u, v, w) = basis_of(a, b, c, t).unwrap();
            let least = magnitude(b) - TOLERANCE;
            let most = magnitude(b) + TOLERANCE;
            &&& u == (a, 0int, 0int)
            &&& v.2 == 0
            &&& w.2 >= 0
            &&& dot(u, u) == a * a
            &&& dot(v, v) <= most * most
            &&& least >= 0 ==> least * least <= dot(v, v)
            &&& dot(w, w) <= c * c < dot((w.0, w.1, w.2 + 1), (w.0, w.1, w.2 + 1))
            &&& 2 * magnitude(SCALE * dot(u, v) - a * (b * t.cos_gamma())) <= magnitude(a) * SCALE
            &&& 2 * magnitude(SCALE * dot(u, w) - a * (c * t.cos_beta())) <= magnitude(a) * SCALE
            &&& magnitude(
                1_000_000_000_000_000_000_000_000_000_000 * dot(v, w) - SCALE * ((b * c)
                    * t.cos_alpha()),
            ) <= SCALE * magnitude(b * c) + 1_000_000_000_000_000_000_000_000_000_000 * (2
                * magnitude(b) + magnitude(c) + magnitude(w.1) + 1)
        }),
{
    let (u, v, w) = basis_of(a, b, c, t).unwrap();
    lemma_edge_b_length(b, t);
    lemma_edge_c_length(a, b, c, t);
    lemma_angle_gamma(a, b, t);
    lemma_angle_beta(a, c, t);
    lemma_angle_alpha(b, c, t);
    assert(dot(u, u) == a * a) by (nonlinear_arith)
        requires
            u == (a, 0int, 0int),
    ;
    assert(dot(u, v) == a * v.0) by (nonlinear_arith)
        requires
            u == (a, 0int, 0int),
    ;
    assert(dot(u, w) == a * w.0) by (nonlinear_arith)
        requires
            u == (a, 0int, 0int),
    ;
    assert(dot(v, v) == v.0 * v.0 + v.1 * v.1) by (nonlinear_arith)
        requires
            v.2 == 0,
    ;
    assert(dot(v, w) == v.0 * w.0 + v.1 * w.1) by (nonlinear_arith)
        requires
            v.2 == 0,
    ;
}

/// The least edge of a cell that is well shaped: 0.0002.
pub const LEAST_EDGE: Fixed = 200_000_000_000;

/// Whether the cell is well shaped: its edges are `(a, 0, 0)`, `(bx, by, 0)`,
/// `(cx, cy, cz)` with each of `a`, `by`, `cz` at least 0.0002 in size, `bx`
/// at most ten times `by`, and `cx` and `cy` at most ten times `cz`.
pub open spec fn is_well_shaped(basis: (Vec3, Vec3, Vec3)) -> bool {
    let (u, v, w) = basis;
    &&& u.1 == 0 && u.2 == 0 && v.2 == 0
    &&& magnitude(u.0) >= LEAST_EDGE
    &&& magnitude(v.1) >= LEAST_EDGE
    &&& magnitude(w.2) >= LEAST_EDGE
    &&& magnitude(v.0) <= 10 * magnitude(v.1)
    &&& magnitude(w.0) <= 10 * magnitude(w.2)
    &&& magnitude(w.1) <= 10 * magnitude(w.2)
}

/// By how much each Cartesian coordinate of the point with the fractional
/// coordinates `f` misses the exact sum, times `SCALE`.
pub open spec fn residual(basis: (Vec3, Vec3, Vec3), f: Vec3) -> Vec3 {
    let p = cartesian_of(basis, f);
    let (u, v, w) = basis;
    (
        p.0 * SCALE - (f.0 * u.0 + f.1 * v.0 + f.2 * w.0),
        p.1 * SCALE - (f.0 * u.1 + f.1 * v.1 + f.2 * w.1),
        p.2 * SCALE - (f.0 * u.2 + f.1 * v.2 + f.2 * w.2),
    )
}

/// Whether each Cartesian coordinate of the point with the fractional
/// coordinates `f` is at most three halves of a unit away from the exact sum
/// `f.0 * a + f.1 * b + f.2 * c`.
pub open spec fn is_near_combination(basis: (Vec3, Vec3, Vec3), f: Vec3) -> bool {
    let e = residual(basis, f);
    &&& 2 * magnitude(e.0) <= 3 * SCALE
    &&& 2 * magnitude(e.1) <= 3 * SCALE
    &&& 2 * magnitude(e.2) <= 3 * SCALE
}

/// Whether the fractional coordinates `f` come back from their Cartesian
/// position to within a billionth: see `lemma_fractional_from_cartesian`.
pub open spec fn comes_back(basis: (Vec3, Vec3, Vec3), f: Vec3) -> bool {
    let (u, v, w) = basis;
    let e = residual(basis, f);
    let second = e.1 * w.2 - e.2 * w.1;
    let first = e.0 * (v.1 * w.2) - second * v.0 - (e.2 * v.1) * w.0;
    &&& magnitude(e.2) <= TOLERANCE * magnitude(w.2)
    &&& magnitude(second) <= TOLERANCE * magnitude(v.1 * w.2)
    &&& magnitude(first) <= TOLERANCE * magnitude(u.0 * (v.1 * w.2))
}

/// Whether the cell is conditioned well enough for fractional coordinates
/// to come back from Cartesian ones to within a billionth: whether its edges
/// are `(a, 0, 0)`, `(bx, by, 0)`, `(cx, cy, cz)` and three halves of a unit,
/// carried through the solving of the three equations, stay within a
/// billionth: `1.5 <= T |cz|`, `1.5 (|cz| + |cy|) <= T |by cz|` and
/// `1.5 (|by cz| + |cz bx| + |cy bx| + |by cx|) <= T |a by cz|`, with `T` a
/// billionth and all of it in units.
pub open spec fn is_well_conditioned(basis: (Vec3, Vec3, Vec3)) -> bool {
    let (u, v, w) = basis;
    let a = magnitude(u.0);
    let bx = magnitude(v.0);
    let by = magnitude(v.1);
    let cx = magnitude(w.0);
    let cy = magnitude(w.1);
    let cz = magnitude(w.2);
    &&& u.1 == 0 && u.2 == 0 && v.2 == 0
    &&& 3 * SCALE <= 2 * TOLERANCE * cz
    &&& 3 * SCALE * (cz + cy) <= 2 * TOLERANCE * (by * cz)
    &&& 3 * SCALE * (by * cz + cz * bx + cy * bx + by * cx) <= 2 * TOLERANCE * (a * (by * cz))
}

/// A cell that is well shaped is well conditioned.
pub proof fn lemma_well_shaped_is_well_conditioned(basis: (Vec3, Vec3, Vec3))
    requires
        is_well_shaped(basis),
    ensures
        is_well_conditioned(basis),
{
    let (u, v, w) = basis;
    let a = magnitude(u.0);
    let bx = magnitude(v.0);
    let by = magnitude(v.1);
    let cx = magnitude(w.0);
    let cy = magnitude(w.1);
    let cz = magnitude(w.2);
    let bc = by * cz;
    let abc = a * bc;
    assert(SCALE == 1_000_000_000_000_000 && TOLERANCE == 1_000_000);
    assert(bc >= 200_000_000_000 * cz && bc >= 0) by (nonlinear_arith)
        requires
            bc == by * cz,
            by >= 200_000_000_000,
            cz >= 0,
    ;
    assert(abc >= 200_000_000_000 * bc) by (nonlinear_arith)
        requires
            abc == a * bc,
            a >= 200_000_000_000,
            bc >= 0,
    ;
    assert(cz * bx <= 10 * bc) by (nonlinear_arith)
        requires
            bc == by * cz,
            0 <= bx <= 10 * by,
            cz >= 0,
    ;
    assert(cy * bx <= 100 * bc) by (nonlinear_arith)
        requires
            bc == by * cz,
            0 <= bx <= 10 * by,
            0 <= cy <= 10 * cz,
    ;
    assert(by * cx <= 10 * bc) by (nonlinear_arith)
        requires
            bc == by * cz,
            0 <= cx <= 10 * cz,
            by >= 0,
    ;
    assert(3 * SCALE * (cz + cy) == 3_000_000_000_000_000 * (cz + cy));
    assert(3 * SCALE * (bc + cz * bx + cy * bx + by * cx) == 3_000_000_000_000_000 * (bc + cz * bx
        + cy * bx + by * cx));
    assert(2 * TOLERANCE * bc == 2_000_000 * bc);
    assert(2 * TOLERANCE * abc == 2_000_000 * abc);
}

/// Fractional coordinates come back from Cartesian ones to within a
/// billionth in a cell that is well conditioned. With `p` the position of
/// `f`, solving `p.2 = z cz`, then `p.1 = y by + z cy`, then
/// `p.0 = x a + y bx + z cx` gives `z`, `y` and `x` that miss `f.2`, `f.1`
/// and `f.0` by `e.2 / cz`, `(e.1 cz - e.2 cy) / (by cz)` and
/// `(e.0 by cz - (e.1 cz - e.2 cy) bx - e.2 by cx) / (a by cz)` units, where
/// `e` is the residual of `f`; each of the three is at most `TOLERANCE`.
pub proof fn lemma_fractional_from_cartesian(basis: (Vec3, Vec3, Vec3), f: Vec3)
    requires
        is_well_conditioned(basis),
    ensures
        comes_back(basis, f),
        is_near_combination(basis, f),
{
    let (u, v, w) = basis;
    let e = residual(basis, f);
    lemma_cartesian_is_linear_combination(basis, f);
    assert(SCALE == 1_000_000_000_000_000 && TOLERANCE == 1_000_000);
    let k: int = 3_000_000_000_000_000;
    let d0 = 2 * e.0;
    let d1 = 2 * e.1;
    let d2 = 2 * e.2;
    assert(magnitude(d0) <= k && magnitude(d1) <= k && magnitude(d2) <= k);
    let a = magnitude(u.0);
    let bx = magnitude(v.0);
    let by = magnitude(v.1);
    let cx = magnitude(w.0);
    let cy = magnitude(w.1);
    let cz = magnitude(w.2);
    let bc = v.1 * w.2;
    let sbc = by * cz;
    lemma_magnitude_of_product(v.1, w.2);
    // the second: 2 (e1 cz - e2 cy)
    let second = e.1 * w.2 - e.2 * w.1;
    let t1 = d1 * w.2;
    let t2 = d2 * w.1;
    lemma_product_magnitude(d1, w.2, k, cz);
    lemma_product_magnitude(d2, w.1, k, cy);
    assert(2 * second == t1 - t2) by (nonlinear_arith)
        requires
            second == e.1 * w.2 - e.2 * w.1,
            t1 == (2 * e.1) * w.2,
            t2 == (2 * e.2) * w.1,
    ;
    assert(k * cz + k * cy == 3_000_000_000_000_000 * (cz + cy)) by (nonlinear_arith)
        requires
            k == 3_000_000_000_000_000,
    ;
    assert(3 * SCALE * (cz + cy) == 3_000_000_000_000_000 * (cz + cy));
    assert(2 * TOLERANCE * sbc == 2_000_000 * sbc);
    assert(TOLERANCE * magnitude(bc) == 1_000_000 * sbc);
    assert(TOLERANCE * magnitude(w.2) == 1_000_000 * cz);
    assert(2 * TOLERANCE * cz == 2_000_000 * cz);
    // the first: 2 (e0 by cz - second bx - e2 by cx)
    let s2 = 2 * second;
    let u1 = d0 * bc;
    let u2 = s2 * v.0;
    let dv = d2 * v.1;
    let u3 = dv * w.0;
    lemma_product_magnitude(d0, bc, k, sbc);
    lemma_product_magnitude(s2, v.0, k * cz + k * cy, bx);
    lemma_product_magnitude(d2, v.1, k, by);
    lemma_product_magnitude(dv, w.0, k * by, cx);
    let first = e.0 * bc - second * v.0 - (e.2 * v.1) * w.0;
    assert(2 * first == u1 - u2 - u3) by (nonlinear_arith)
        requires
            first == e.0 * bc - second * v.0 - (e.2 * v.1) * w.0,
            u1 == (2 * e.0) * bc,
            u2 == (2 * second) * v.0,
            u3 == ((2 * e.2) * v.1) * w.0,
    ;
    let total = sbc + cz * bx + cy * bx + by * cx;
    assert(k * sbc + (k * cz + k * cy) * bx + (k * by) * cx == 3_000_000_000_000_000 * total)
        by (nonlinear_arith)
        requires
            k == 3_000_000_000_000_000,
            total == sbc + cz * bx + cy * bx + by * cx,
    ;
    assert(3 * SCALE * total == 3_000_000_000_000_000 * total);
    let abc = u.0 * bc;
    let sabc = a * sbc;
    lemma_magnitude_of_product(u.0, bc);
    assert(magnitude(abc) == sabc);
    assert(2 * TOLERANCE * sabc == 2_000_000 * sabc);
    assert(TOLERANCE * magnitude(abc) == 1_000_000 * sabc);
    assert(3 * SCALE <= 2 * TOLERANCE * cz);
    assert(3_000_000_000_000_000 <= 2_000_000 * cz);
    assert(2 * magnitude(e.2) <= 3_000_000_000_000_000);
    lemma_within(magnitude(e.2), 3_000_000_000_000_000, cz, TOLERANCE * magnitude(w.2));
    lemma_within(
        magnitude(second),
        3_000_000_000_000_000 * (cz + cy),
        sbc,
        TOLERANCE * magnitude(bc),
    );
    lemma_within(magnitude(first), 3_000_000_000_000_000 * total, sabc, TOLERANCE * magnitude(abc));
}

/// Where twice `m` is at most `k`, and `k` at most two million times `c`, `m`
/// is at most a million times `c`.
proof fn lemma_within(m: int, k: int, c: int, t: int)
    requires
        2 * m <= k,
        k <= 2_000_000 * c,
        t == 1_000_000 * c,
    ensures
        m <= t,
{
}

/// The magnitude of a product is the product of the magnitudes.
proof fn lemma_magnitude_of_product(x: int, y: int)
    ensures
        magnitude(x * y) == magnitude(x) * magnitude(y),
{
    let ax = magnitude(x);
    let ay = magnitude(y);
    assert(ax * ay >= 0 && (x * y == ax * ay || x * y == -(ax * ay))) by (nonlinear_arith)
        requires
            ax == x || ax == -x,
            ay == y || ay == -y,
            ax >= 0,
            ay >= 0,
    ;
}

} // verus!
