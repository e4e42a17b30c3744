//! The geometry of a unit cell: its three edge vectors, the change from
//! fractional to Cartesian coordinates, its eight corners and their centre.

use vstd::prelude::*;
use crate::atom_config::{Point, points_view};
use crate::cell_metric::{
    comes_back, has_lengths, is_near_combination, is_well_conditioned,
    lemma_cartesian_is_linear_combination, lemma_edges_have_lengths, lemma_edges_rise,
    lemma_fractional_from_cartesian,
};
use crate::number::{
    Fixed, SCALE, div_round, div_trunc, fits, fixed_mul, int_sqrt, lemma_product_bounds, mul_fixed,
    narrow, round_div, sqrt_floor, trunc_div,
};

verus! {

/// A point or a vector as a mathematical value.
pub type Vec3 = (int, int, int);

/// Why a cell has no geometry.
#[derive(Debug, Clone, Copy, PartialEq, Eq, Structural)]
pub enum GeometryError {
    /// The sine of gamma is zero: the edges a and b lie on one line.
    DegenerateAngle,
    /// No edge c makes the three angles with a and b: its height would be the
    /// root of a negative number.
    InconsistentAngles,
    /// A coordinate is too large for a fixed-point number.
    OutOfRange,
}

/// The cosines of the three angles of a cell and the sine of gamma, each
/// between -1 and 1.
#[derive(Debug, Clone, Copy)]
pub struct LatticeTrig {
    cos_alpha: Fixed,
    cos_beta: Fixed,
    cos_gamma: Fixed,
    sin_gamma: Fixed,
}

/// Whether `v` lies between -1 and 1.
pub open spec fn in_unit_range(v: int) -> bool {
    -(SCALE as int) <= v <= SCALE as int
}

/// Whether `c` and `s` can be the cosine and the sine of one angle: whether
/// the sum of their squares is 1 as nearly as rounding to a unit allows.
pub open spec fn is_unit_pair(c: int, s: int) -> bool {
    -2 * SCALE <= c * c + s * s - SCALE * SCALE <= 2 * SCALE
}

/// Whether the four values can be the cosines of three angles and the sine of
/// the third.
pub open spec fn is_trig(cos_alpha: int, cos_beta: int, cos_gamma: int, sin_gamma: int) -> bool {
    &&& in_unit_range(cos_alpha)
    &&& in_unit_range(cos_beta)
    &&& in_unit_range(cos_gamma)
    &&& in_unit_range(sin_gamma)
    &&& is_unit_pair(cos_gamma, sin_gamma)
}

impl LatticeTrig {
    #[verifier::type_invariant]
    spec fn valid(self) -> bool {
        self.well_formed()
    }

    /// What holds of every `LatticeTrig`: each value lies between -1 and 1,
    /// and the squares of the cosine and the sine of gamma add up to 1.
    pub open spec fn well_formed(self) -> bool {
        is_trig(self.cos_alpha(), self.cos_beta(), self.cos_gamma(), self.sin_gamma())
    }

    /// The cosine of alpha.
    pub closed spec fn cos_alpha(self) -> int {
        self.cos_alpha as int
    }

    /// The cosine of beta.
    pub closed spec fn cos_beta(self) -> int {
        self.cos_beta as int
    }

    /// The cosine of gamma.
    pub closed spec fn cos_gamma(self) -> int {
        self.cos_gamma as int
    }

    /// The sine of gamma.
    pub closed spec fn sin_gamma(self) -> int {
        self.sin_gamma as int
    }

    /// The four values as one, where they can be the cosines of three angles
    /// and the sine of the third.
    pub fn new(cos_alpha: Fixed, cos_beta: Fixed, cos_gamma: Fixed, sin_gamma: Fixed) -> (r:
        Option<LatticeTrig>)
        ensures
            r is Some == is_trig(
                cos_alpha as int,
                cos_beta as int,
                cos_gamma as int,
                sin_gamma as int,
            ),
            r matches Some(t) ==> t.cos_alpha() == cos_alpha && t.cos_beta() == cos_beta
                && t.cos_gamma() == cos_gamma && t.sin_gamma() == sin_gamma && t.well_formed(),
    {
        if -SCALE <= cos_alpha && cos_alpha <= SCALE && -SCALE <= cos_beta && cos_beta <= SCALE
            && -SCALE <= cos_gamma && cos_gamma <= SCALE && -SCALE <= sin_gamma && sin_gamma
            <= SCALE {
            proof {
                assert(0 <= cos_gamma * cos_gamma <= 1_000_000_000_000_000_000_000_000_000_000)
                    by (nonlinear_arith)
                    requires
                        -1_000_000_000_000_000 <= cos_gamma <= 1_000_000_000_000_000,
                ;
                assert(0 <= sin_gamma * sin_gamma <= 1_000_000_000_000_000_000_000_000_000_000)
                    by (nonlinear_arith)
                    requires
                        -1_000_000_000_000_000 <= sin_gamma <= 1_000_000_000_000_000,
                ;
            }
            let squares: i128 = (cos_gamma as i128) * (cos_gamma as i128) + (sin_gamma as i128) * (
            sin_gamma as i128);
            let one: i128 = 1_000_000_000_000_000_000_000_000_000_000;
            if one - 2 * (SCALE as i128) <= squares && squares <= one + 2 * (SCALE as i128) {
                Some(LatticeTrig { cos_alpha, cos_beta, cos_gamma, sin_gamma })
            } else {
                None
            }
        } else {
            None
        }
    }
}

/// The three edge vectors of a cell.
#[derive(Debug, Clone, Copy)]
pub struct Basis {
    pub a: Point,
    pub b: Point,
    pub c: Point,
}

/// A point as a triple of integers.
pub open spec fn point_view(p: Point) -> Vec3 {
    (p.0 as int, p.1 as int, p.2 as int)
}

impl View for Basis {
    type V = (Vec3, Vec3, Vec3);

    open spec fn view(&self) -> (Vec3, Vec3, Vec3) {
        (point_view(self.a), point_view(self.b), point_view(self.c))
    }
}

/// Whether the three coordinates are fixed-point numbers.
pub open spec fn fits3(v: Vec3) -> bool {
    fits(v.0) && fits(v.1) && fits(v.2)
}

/// The second coordinate of the edge c: `c * (cos alpha - cos beta * cos gamma) / sin gamma`.
pub open spec fn edge_c_y(c: int, t: LatticeTrig) -> int {
    round_div(c * (t.cos_alpha() - fixed_mul(t.cos_beta(), t.cos_gamma())), t.sin_gamma())
}

/// The square of the third coordinate of the edge c, in squares of units.
pub open spec fn edge_c_z_squared(c: int, t: LatticeTrig) -> int {
    c * c - fixed_mul(c, t.cos_beta()) * fixed_mul(c, t.cos_beta()) - edge_c_y(c, t) * edge_c_y(
        c,
        t,
    )
}

/// Half a turn in degrees.
pub const HALF_TURN: Fixed = 180_000_000_000_000_000;

/// Whether an angle of `degrees` degrees has no sine: whether it is a whole
/// multiple of 180 degrees.
pub open spec fn is_flat_angle(degrees: int) -> bool {
    (if degrees >= 0 { degrees } else { -degrees }) % (HALF_TURN as int) == 0
}

/// The edge vectors of the cell with edge lengths `a`, `b`, `c` and angles
/// whose cosines and sine are `t`: a along x, b in the plane of x and y, and c
/// of length `c` at the angles alpha to b and beta to a.
pub open spec fn basis_of(a: int, b: int, c: int, t: LatticeTrig) -> Result<
    (Vec3, Vec3, Vec3),
    GeometryError,
> {
    if t.sin_gamma() == 0 {
        Err(GeometryError::DegenerateAngle)
    } else if !fits(fixed_mul(b, t.cos_gamma())) || !fits(fixed_mul(b, t.sin_gamma())) || !fits(
        fixed_mul(c, t.cos_beta()),
    ) || !fits(edge_c_y(c, t)) {
        Err(GeometryError::OutOfRange)
    } else if edge_c_z_squared(c, t) < 0 {
        Err(GeometryError::InconsistentAngles)
    } else if !fits(int_sqrt(edge_c_z_squared(c, t))) {
        Err(GeometryError::OutOfRange)
    } else {
        Ok(
            (
                (a, 0, 0),
                (fixed_mul(b, t.cos_gamma()), fixed_mul(b, t.sin_gamma()), 0),
                (fixed_mul(c, t.cos_beta()), edge_c_y(c, t), int_sqrt(edge_c_z_squared(c, t))),
            ),
        )
    }
}

/// The edge vectors of the cell with the edge lengths `a`, `b`, `c`, the
/// angle `gamma` in degrees and the cosines and sine `t`. There are none
/// where gamma is a whole multiple of 180 degrees, whatever `t` says of it.
pub open spec fn basis_of_cell(a: int, b: int, c: int, gamma: int, t: LatticeTrig) -> Result<
    (Vec3, Vec3, Vec3),
    GeometryError,
> {
    if is_flat_angle(gamma) {
        Err(GeometryError::DegenerateAngle)
    } else {
        basis_of(a, b, c, t)
    }
}

/// The sum of the three products, each rounded to the nearest unit.
pub open spec fn combine(f: Vec3, u: int, v: int, w: int) -> int {
    fixed_mul(f.0, u) + fixed_mul(f.1, v) + fixed_mul(f.2, w)
}

/// The point with the fractional coordinates `f` in the cell with the edges
/// `basis`: `f.0 * a + f.1 * b + f.2 * c`.
pub open spec fn cartesian_of(basis: (Vec3, Vec3, Vec3), f: Vec3) -> Vec3 {
    (
        combine(f, basis.0.0, basis.1.0, basis.2.0),
        combine(f, basis.0.1, basis.1.1, basis.2.1),
        combine(f, basis.0.2, basis.1.2, basis.2.2),
    )
}

/// The sum of two vectors.
pub open spec fn plus(u: Vec3, v: Vec3) -> Vec3 {
    (u.0 + v.0, u.1 + v.1, u.2 + v.2)
}

/// The difference of two vectors.
pub open spec fn minus(u: Vec3, v: Vec3) -> Vec3 {
    (u.0 - v.0, u.1 - v.1, u.2 - v.2)
}

/// The eight corners of the cell, in the order: origin, a, a+b, b, c, a+c, a+b+c, b+c.
pub open spec fn corners_of(basis: (Vec3, Vec3, Vec3)) -> Seq<Vec3> {
    let (a, b, c) = basis;
    seq![
        (0, 0, 0),
        a,
        plus(a, b),
        b,
        c,
        plus(a, c),
        plus(plus(a, b), c),
        plus(b, c),
    ]
}

/// Whether every point has fixed-point coordinates.
pub open spec fn all_fit(points: Seq<Vec3>) -> bool {
    forall|i: int| 0 <= i < points.len() ==> fits3(#[trigger] points[i])
}

/// The sum of the points.
pub open spec fn sum_of(points: Seq<Vec3>) -> Vec3
    decreases points.len(),
{
    if points.len() == 0 {
        (0, 0, 0)
    } else {
        plus(sum_of(points.drop_last()), points.last())
    }
}

/// The centre of the points: the mean of each coordinate, cut off towards zero.
pub open spec fn center_of(points: Seq<Vec3>) -> Vec3 {
    let s = sum_of(points);
    let n = points.len() as int;
    (trunc_div(s.0, n), trunc_div(s.1, n), trunc_div(s.2, n))
}

/// The points, each moved by `-offset`.
pub open spec fn moved(points: Seq<Vec3>, offset: Vec3) -> Seq<Vec3> {
    points.map_values(|p: Vec3| minus(p, offset))
}

/// Moving every point by `-offset` takes `offset` from the sum once for each point.
pub proof fn lemma_sum_of_moved(points: Seq<Vec3>, offset: Vec3)
    ensures
        sum_of(moved(points, offset)) == (
            sum_of(points).0 - points.len() * offset.0,
            sum_of(points).1 - points.len() * offset.1,
            sum_of(points).2 - points.len() * offset.2,
        ),
    decreases points.len(),
{
    if points.len() > 0 {
        let n = points.len() as int;
        lemma_sum_of_moved(points.drop_last(), offset);
        assert(moved(points, offset).drop_last() =~= moved(points.drop_last(), offset));
        assert((n - 1) * offset.0 + offset.0 == n * offset.0) by (nonlinear_arith);
        assert((n - 1) * offset.1 + offset.1 == n * offset.1) by (nonlinear_arith);
        assert((n - 1) * offset.2 + offset.2 == n * offset.2) by (nonlinear_arith);
    } else {
        assert(0 * offset.0 == 0 && 0 * offset.1 == 0 && 0 * offset.2 == 0) by (nonlinear_arith);
    }
}

/// What is left of a sum after its mean was taken from each of its `n` terms
/// has the mean zero.
pub proof fn lemma_rest_has_mean_zero(s: int, n: int)
    requires
        n > 0,
    ensures
        trunc_div(s - n * trunc_div(s, n), n) == 0,
{
    if s >= 0 {
        assert(0 <= s - n * (s / n) < n) by (nonlinear_arith)
            requires
                s >= 0,
                n > 0,
        ;
        let r = s - n * (s / n);
        assert(r / n == 0) by (nonlinear_arith)
            requires
                0 <= r < n,
        ;
    } else {
        let m = -s;
        assert(0 <= m - n * (m / n) < n) by (nonlinear_arith)
            requires
                m >= 0,
                n > 0,
        ;
        let r = m - n * (m / n);
        assert(r / n == 0) by (nonlinear_arith)
            requires
                0 <= r < n,
        ;
        assert(s - n * (-(m / n)) == -r) by (nonlinear_arith)
            requires
                r == m - n * (m / n),
                m == -s,
        ;
    }
}

/// Points moved so that their centre comes to lie at the origin have their
/// centre at the origin: exactly, in fixed-point arithmetic.
pub proof fn lemma_recentered_center_is_origin(points: Seq<Vec3>)
    requires
        points.len() > 0,
    ensures
        center_of(moved(points, center_of(points))) == (0int, 0int, 0int),
{
    let c = center_of(points);
    let s = sum_of(points);
    let n = points.len() as int;
    lemma_sum_of_moved(points, c);
    lemma_rest_has_mean_zero(s.0, n);
    lemma_rest_has_mean_zero(s.1, n);
    lemma_rest_has_mean_zero(s.2, n);
}

/// `v` as a fixed-point number, or the error that it is too large.
fn narrowed(v: i128) -> (r: Result<Fixed, GeometryError>)
    ensures
        r == (if fits(v as int) {
            Ok::<Fixed, GeometryError>(v as i64)
        } else {
            Err::<Fixed, GeometryError>(GeometryError::OutOfRange)
        }),
{
    match narrow(v) {
        Some(x) => Ok(x),
        None => Err(GeometryError::OutOfRange),
    }
}

/// The edge vectors of the cell with the edge lengths `a`, `b`, `c` and the
/// angles whose cosines and sine are `trig`.
pub fn calculate_basis_vectors(a: Fixed, b: Fixed, c: Fixed, trig: &LatticeTrig) -> (r: Result<
    Basis,
    GeometryError,
>)
    ensures
        match r {
            Ok(basis) => basis_of(a as int, b as int, c as int, *trig) == Ok::<
                (Vec3, Vec3, Vec3),
                GeometryError,
            >(basis@),
            Err(e) => basis_of(a as int, b as int, c as int, *trig) == Err::<
                (Vec3, Vec3, Vec3),
                GeometryError,
            >(e),
        },
        r matches Ok(basis) ==> has_lengths(basis@, a as int, b as int, c as int),
        r matches Ok(basis) ==> (2 * (b * trig.sin_gamma()) >= SCALE ==> basis.b.1 > 0) && (
        edge_c_z_squared(c as int, *trig) >= 1 ==> basis.c.2 > 0),
{
    proof {
        use_type_invariant(trig);
        if basis_of(a as int, b as int, c as int, *trig) is Ok {
            lemma_edges_have_lengths(a as int, b as int, c as int, *trig);
            lemma_edges_rise(a as int, b as int, c as int, *trig);
        }
    }
    if trig.sin_gamma == 0 {
        return Err(GeometryError::DegenerateAngle);
    }
    let bx = narrowed(mul_fixed(b, trig.cos_gamma));
    let by = narrowed(mul_fixed(b, trig.sin_gamma));
    let cx = narrowed(mul_fixed(c, trig.cos_beta));
    proof {
        lemma_unit_product(trig.cos_beta as int, trig.cos_gamma as int);
    }
    let spread: i128 = trig.cos_alpha as i128 - mul_fixed(trig.cos_beta, trig.cos_gamma);
    assert(-2 * SCALE <= spread <= 2 * SCALE);
    assert(-0x10_0000_0000_0000_0000_0000_0000_0000 <= c * spread
        <= 0x10_0000_0000_0000_0000_0000_0000_0000) by (nonlinear_arith)
        requires
            -0x8000_0000_0000_0000 <= c <= 0x7fff_ffff_ffff_ffff,
            -2_000_000_000_000_000 <= spread <= 2_000_000_000_000_000,
    ;
    let cy_wide = div_round(c as i128 * spread, trig.sin_gamma as i128);
    let (bx, by, cx, cy) = match (bx, by, cx, narrowed(cy_wide)) {
        (Ok(bx), Ok(by), Ok(cx), Ok(cy)) => (bx, by, cx, cy),
        _ => { return Err(GeometryError::OutOfRange); },
    };
    proof {
        lemma_product_bounds(c as int, c as int);
        lemma_product_bounds(cx as int, cx as int);
        lemma_product_bounds(cy as int, cy as int);
        assert(cx * cx >= 0) by (nonlinear_arith);
        assert(cy * cy >= 0) by (nonlinear_arith);
        assert(c * c >= 0) by (nonlinear_arith);
    }
    let squared: i128 = (c as i128) * (c as i128) - (cx as i128) * (cx as i128) - (cy as i128) * (
    cy as i128);
    if squared < 0 {
        return Err(GeometryError::InconsistentAngles);
    }
    let cz_wide = sqrt_floor(squared as u128);
    let cz = match narrowed(cz_wide as i128) {
        Ok(v) => v,
        Err(e) => { return Err(e); },
    };
    Ok(Basis { a: (a, 0, 0), b: (bx, by, 0), c: (cx, cy, cz) })
}

/// Whether an angle of `degrees` degrees is a whole multiple of 180 degrees.
pub fn flat_angle(degrees: Fixed) -> (r: bool)
    ensures
        r == is_flat_angle(degrees as int),
{
    let wide: i128 = degrees as i128;
    let size: i128 = if wide >= 0 { wide } else { -wide };
    size % (HALF_TURN as i128) == 0
}

/// The edge vectors of the cell with the edge lengths `a`, `b`, `c`, the
/// angle `gamma` in degrees and the cosines and sine `trig`.
pub fn basis_vectors_of_cell(a: Fixed, b: Fixed, c: Fixed, gamma: Fixed, trig: &LatticeTrig) -> (r:
    Result<Basis, GeometryError>)
    ensures
        match r {
            Ok(basis) => basis_of_cell(a as int, b as int, c as int, gamma as int, *trig) == Ok::<
                (Vec3, Vec3, Vec3),
                GeometryError,
            >(basis@),
            Err(e) => basis_of_cell(a as int, b as int, c as int, gamma as int, *trig) == Err::<
                (Vec3, Vec3, Vec3),
                GeometryError,
            >(e),
        },
        r matches Ok(basis) ==> has_lengths(basis@, a as int, b as int, c as int),
{
    if flat_angle(gamma) {
        return Err(GeometryError::DegenerateAngle);
    }
    calculate_basis_vectors(a, b, c, trig)
}

/// The product of two numbers between -1 and 1 lies between -1 and 1.
pub proof fn lemma_unit_product(v: int, u: int)
    requires
        in_unit_range(v),
        in_unit_range(u),
    ensures
        in_unit_range(fixed_mul(v, u)),
{
    let av = if v >= 0 { v } else { -v };
    let au = if u >= 0 { u } else { -u };
    let s: int = 1_000_000_000_000_000;
    let n = v * u;
    let m = if n >= 0 { n } else { -n };
    assert(m == av * au) by (nonlinear_arith)
        requires
            av == (if v >= 0 { v } else { -v }),
            au == (if u >= 0 { u } else { -u }),
            n == v * u,
            m == (if n >= 0 { n } else { -n }),
    ;
    assert(0 <= m <= s * s) by (nonlinear_arith)
        requires
            m == av * au,
            0 <= av <= s,
            0 <= au <= s,
    ;
    assert(s * s == 1_000_000_000_000_000_000_000_000_000_000) by (nonlinear_arith)
        requires
            s == 1_000_000_000_000_000,
    ;
    assert(0 <= (2 * m + 1_000_000_000_000_000) / 2_000_000_000_000_000 <= 1_000_000_000_000_000);
}

/// The point with the fractional coordinates `f` in the cell with the edges `basis`.
pub fn to_cartesian(basis: &Basis, f: Point) -> (r: Result<Point, GeometryError>)
    ensures
        match r {
            Ok(p) => fits3(cartesian_of(basis@, point_view(f))) && point_view(p) == cartesian_of(
                basis@,
                point_view(f),
            ),
            Err(e) => e == GeometryError::OutOfRange && !fits3(
                cartesian_of(basis@, point_view(f)),
            ),
        },
        is_near_combination(basis@, point_view(f)),
        is_well_conditioned(basis@) ==> comes_back(basis@, point_view(f)),
{
    proof {
        lemma_cartesian_is_linear_combination(basis@, point_view(f));
        if is_well_conditioned(basis@) {
            lemma_fractional_from_cartesian(basis@, point_view(f));
        }
    }
    let x = narrowed(mul_fixed(f.0, basis.a.0) + mul_fixed(f.1, basis.b.0) + mul_fixed(f.2, basis.c.0));
    let y = narrowed(mul_fixed(f.0, basis.a.1) + mul_fixed(f.1, basis.b.1) + mul_fixed(f.2, basis.c.1));
    let z = narrowed(mul_fixed(f.0, basis.a.2) + mul_fixed(f.1, basis.b.2) + mul_fixed(f.2, basis.c.2));
    match (x, y, z) {
        (Ok(x), Ok(y), Ok(z)) => Ok((x, y, z)),
        _ => Err(GeometryError::OutOfRange),
    }
}

/// The sum of two points.
fn add_points(u: Point, v: Point) -> (r: Result<Point, GeometryError>)
    ensures
        match r {
            Ok(p) => fits3(plus(point_view(u), point_view(v))) && point_view(p) == plus(
                point_view(u),
                point_view(v),
            ),
            Err(e) => e == GeometryError::OutOfRange && !fits3(
                plus(point_view(u), point_view(v)),
            ),
        },
{
    let x = narrowed(u.0 as i128 + v.0 as i128);
    let y = narrowed(u.1 as i128 + v.1 as i128);
    let z = narrowed(u.2 as i128 + v.2 as i128);
    match (x, y, z) {
        (Ok(x), Ok(y), Ok(z)) => Ok((x, y, z)),
        _ => Err(GeometryError::OutOfRange),
    }
}

/// The difference of two points.
pub fn sub_points(u: Point, v: Point) -> (r: Result<Point, GeometryError>)
    ensures
        match r {
            Ok(p) => fits3(minus(point_view(u), point_view(v))) && point_view(p) == minus(
                point_view(u),
                point_view(v),
            ),
            Err(e) => e == GeometryError::OutOfRange && !fits3(
                minus(point_view(u), point_view(v)),
            ),
        },
{
    let x = narrowed(u.0 as i128 - v.0 as i128);
    let y = narrowed(u.1 as i128 - v.1 as i128);
    let z = narrowed(u.2 as i128 - v.2 as i128);
    match (x, y, z) {
        (Ok(x), Ok(y), Ok(z)) => Ok((x, y, z)),
        _ => Err(GeometryError::OutOfRange),
    }
}

/// The eight corners of the cell with the edges `basis`.
pub fn corners(basis: &Basis) -> (r: Result<Vec<Point>, GeometryError>)
    ensures
        match r {
            Ok(v) => all_fit(corners_of(basis@)) && points_view(v@) == corners_of(basis@),
            Err(e) => e == GeometryError::OutOfRange && !all_fit(corners_of(basis@)),
        },
{
    let ghost all = corners_of(basis@);
    let ab = match add_points(basis.a, basis.b) {
        Ok(p) => p,
        Err(e) => {
            assert(!fits3(all[2]));
            return Err(e);
        },
    };
    let ac = match add_points(basis.a, basis.c) {
        Ok(p) => p,
        Err(e) => {
            assert(!fits3(all[5]));
            return Err(e);
        },
    };
    let abc = match add_points(ab, basis.c) {
        Ok(p) => p,
        Err(e) => {
            assert(!fits3(all[6]));
            return Err(e);
        },
    };
    let bc = match add_points(basis.b, basis.c) {
        Ok(p) => p,
        Err(e) => {
            assert(!fits3(all[7]));
            return Err(e);
        },
    };
    let mut v: Vec<Point> = Vec::new();
    v.push((0, 0, 0));
    v.push(basis.a);
    v.push(ab);
    v.push(basis.b);
    v.push(basis.c);
    v.push(ac);
    v.push(abc);
    v.push(bc);
    assert(points_view(v@) =~= all);
    Ok(v)
}

/// The point with the fractional coordinates `frac_x`, `frac_y`, `frac_z` in
/// the cell with the edge lengths `a`, `b`, `c` and the angles of `trig`.
pub fn get_cartesian_coordinates(
    a: Fixed,
    b: Fixed,
    c: Fixed,
    trig: &LatticeTrig,
    frac_x: Fixed,
    frac_y: Fixed,
    frac_z: Fixed,
) -> (r: Result<Point, GeometryError>)
    ensures
        r == cartesian_in_cell(
            a as int,
            b as int,
            c as int,
            *trig,
            (frac_x as int, frac_y as int, frac_z as int),
        ),
{
    let basis = calculate_basis_vectors(a, b, c, trig)?;
    to_cartesian(&basis, (frac_x, frac_y, frac_z))
}

/// The point with the fractional coordinates `f` in the cell with the edge
/// lengths `a`, `b`, `c` and the angles of `t`, or why there is none.
pub open spec fn cartesian_in_cell(a: int, b: int, c: int, t: LatticeTrig, f: Vec3) -> Result<
    Point,
    GeometryError,
> {
    match basis_of(a, b, c, t) {
        Err(e) => Err(e),
        Ok(basis) => {
            let p = cartesian_of(basis, f);
            if fits3(p) {
                Ok((p.0 as i64, p.1 as i64, p.2 as i64))
            } else {
                Err(GeometryError::OutOfRange)
            }
        },
    }
}

/// The corners of the cell with the edge lengths `a`, `b`, `c` and the angles
/// of `t`, or why there are none.
pub open spec fn vertices_in_cell(a: int, b: int, c: int, t: LatticeTrig) -> Result<
    Seq<Vec3>,
    GeometryError,
> {
    match basis_of(a, b, c, t) {
        Err(e) => Err(e),
        Ok(basis) => if all_fit(corners_of(basis)) {
            Ok(corners_of(basis))
        } else {
            Err(GeometryError::OutOfRange)
        },
    }
}

/// The eight corners of the cell with the edge lengths `a`, `b`, `c` and the
/// angles of `trig`, in the order: origin, a, a+b, b, c, a+c, a+b+c, b+c.
pub fn calculate_lattice_vertices(a: Fixed, b: Fixed, c: Fixed, trig: &LatticeTrig) -> (r: Result<
    Vec<Point>,
    GeometryError,
>)
    ensures
        match r {
            Ok(v) => vertices_in_cell(a as int, b as int, c as int, *trig) == Ok::<
                Seq<Vec3>,
                GeometryError,
            >(points_view(v@)),
            Err(e) => vertices_in_cell(a as int, b as int, c as int, *trig) == Err::<
                Seq<Vec3>,
                GeometryError,
            >(e),
        },
        r matches Ok(v) ==> v.len() == 8,
{
    let basis = calculate_basis_vectors(a, b, c, trig)?;
    corners(&basis)
}

/// The sum of the points lies within the bounds of their count times a coordinate's.
proof fn lemma_sum_bounds(points: Seq<Vec3>)
    requires
        all_fit(points),
    ensures
        -points.len() * 0x8000_0000_0000_0000 <= sum_of(points).0 <= points.len()
            * 0x7fff_ffff_ffff_ffff,
        -points.len() * 0x8000_0000_0000_0000 <= sum_of(points).1 <= points.len()
            * 0x7fff_ffff_ffff_ffff,
        -points.len() * 0x8000_0000_0000_0000 <= sum_of(points).2 <= points.len()
            * 0x7fff_ffff_ffff_ffff,
    decreases points.len(),
{
    if points.len() > 0 {
        assert(all_fit(points.drop_last())) by {
            assert forall|i: int| 0 <= i < points.drop_last().len() implies fits3(
                #[trigger] points.drop_last()[i],
            ) by {
                assert(points.drop_last()[i] == points[i]);
            }
        }
        lemma_sum_bounds(points.drop_last());
        assert(fits3(points.last()));
    }
}

/// The centre of the points: the mean of each coordinate, cut off towards
/// zero. There is none of no points.
pub fn get_lattice_center(vertices: &Vec<Point>) -> (r: Option<Point>)
    ensures
        r is Some == (vertices.len() > 0),
        r matches Some(c) ==> point_view(c) == center_of(points_view(vertices@)),
{
    let n = vertices.len();
    if n == 0 {
        return None;
    }
    let ghost points = points_view(vertices@);
    let mut sx: i128 = 0;
    let mut sy: i128 = 0;
    let mut sz: i128 = 0;
    let mut i: usize = 0;
    assert(points.take(0) =~= Seq::empty());
    assert(all_fit(points));
    while i < n
        invariant
            i <= n,
            n == vertices.len(),
            points == points_view(vertices@),
            all_fit(points),
            (sx as int, sy as int, sz as int) == sum_of(points.take(i as int)),
        decreases n - i,
    {
        proof {
            assert(points.take(i + 1).drop_last() =~= points.take(i as int));
            assert(points.take(i + 1).last() == points[i as int]);
            assert(fits3(points[i as int]));
            assert(all_fit(points.take(i as int))) by {
                assert forall|k: int| 0 <= k < points.take(i as int).len() implies fits3(
                    #[trigger] points.take(i as int)[k],
                ) by {
                    assert(points.take(i as int)[k] == points[k]);
                }
            }
            lemma_sum_bounds(points.take(i as int));
            assert(i * 0x8000_0000_0000_0000 <= 0xffff_ffff_ffff_ffff * 0x8000_0000_0000_0000)
                by (nonlinear_arith)
                requires
                    0 <= i <= 0xffff_ffff_ffff_ffff,
            ;
        }
        let p = vertices[i];
        sx = sx + p.0 as i128;
        sy = sy + p.1 as i128;
        sz = sz + p.2 as i128;
        i += 1;
    }
    proof {
        assert(points.take(n as int) =~= points);
        lemma_sum_bounds(points);
        lemma_mean_fits(sx as int, n as int);
        lemma_mean_fits(sy as int, n as int);
        lemma_mean_fits(sz as int, n as int);
        assert(n * 0x8000_0000_0000_0000 <= 0xffff_ffff_ffff_ffff * 0x8000_0000_0000_0000)
            by (nonlinear_arith)
            requires
                0 <= n <= 0xffff_ffff_ffff_ffff,
        ;
    }
    let cx = div_trunc(sx, n as i128);
    let cy = div_trunc(sy, n as i128);
    let cz = div_trunc(sz, n as i128);
    Some((cx as Fixed, cy as Fixed, cz as Fixed))
}

/// The mean of `n` fixed-point numbers is one.
proof fn lemma_mean_fits(s: int, n: int)
    requires
        n > 0,
        -n * 0x8000_0000_0000_0000 <= s <= n * 0x7fff_ffff_ffff_ffff,
    ensures
        fits(trunc_div(s, n)),
{
    if s >= 0 {
        assert(0 <= s / n <= 0x7fff_ffff_ffff_ffff) by (nonlinear_arith)
            requires
                n > 0,
                0 <= s <= n * 0x7fff_ffff_ffff_ffff,
        ;
    } else {
        let m = -s;
        assert(0 <= m / n <= 0x8000_0000_0000_0000) by (nonlinear_arith)
            requires
                n > 0,
                0 <= m <= n * 0x8000_0000_0000_0000,
        ;
    }
}

} // verus!
