use vstd::prelude::*;

verus! {

/// A triangle corner in raster space: `x` grows rightward and `y` upward, in
/// whole pixels (any `i32`; the framebuffer clips). `z` is the depth after projection in fixed point: 0 for the
/// near plane (depth -1 in normalised device coordinates) up to `DEPTH_ONE`
/// for the far plane (depth 1); smaller values are nearer the camera.
#[derive(Clone, Copy, Debug, PartialEq, Eq, Structural)]
pub struct ScreenVertex {
    pub x: i32,
    pub y: i32,
    pub z: u32,
}

/// A vector in fixed point (positions before projection, or normals).
#[derive(Clone, Copy, Debug, PartialEq, Eq, Structural)]
pub struct Vec3 {
    pub x: i16,
    pub y: i16,
    pub z: i16,
}

/// The edge function of the directed edge `a -> b` evaluated at `(cx, cy)`.
pub open spec fn edge_spec(ax: int, ay: int, bx: int, by: int, cx: int, cy: int) -> int {
    (cx - ax) * (by - ay) - (cy - ay) * (bx - ax)
}

/// Signed area (doubled) of a triangle; positive for counter-clockwise winding.
pub open spec fn area_spec(v0: ScreenVertex, v1: ScreenVertex, v2: ScreenVertex) -> int {
    -edge_spec(v0.x as int, v0.y as int, v1.x as int, v1.y as int, v2.x as int, v2.y as int)
}

/// Unnormalised barycentric weight of corner 0 at `(px, py)`: the signed area
/// spanned by the opposite edge and the point.
pub open spec fn weight0(v0: ScreenVertex, v1: ScreenVertex, v2: ScreenVertex, px: int, py: int) -> int {
    -edge_spec(v1.x as int, v1.y as int, v2.x as int, v2.y as int, px, py)
}

pub open spec fn weight1(v0: ScreenVertex, v1: ScreenVertex, v2: ScreenVertex, px: int, py: int) -> int {
    -edge_spec(v2.x as int, v2.y as int, v0.x as int, v0.y as int, px, py)
}

pub open spec fn weight2(v0: ScreenVertex, v1: ScreenVertex, v2: ScreenVertex, px: int, py: int) -> int {
    -edge_spec(v0.x as int, v0.y as int, v1.x as int, v1.y as int, px, py)
}

/// Whether the edge-function test classifies `(px, py)` as covered.
pub open spec fn covers(v0: ScreenVertex, v1: ScreenVertex, v2: ScreenVertex, px: int, py: int) -> bool {
    &&& area_spec(v0, v1, v2) > 0
    &&& weight0(v0, v1, v2, px, py) >= 0
    &&& weight1(v0, v1, v2, px, py) >= 0
    &&& weight2(v0, v1, v2, px, py) >= 0
}

/// Computes the edge function of `a -> b` at `(cx, cy)`.
pub fn edge(a: ScreenVertex, b: ScreenVertex, cx: i32, cy: i32) -> (r: i128)
    ensures
        r == edge_spec(a.x as int, a.y as int, b.x as int, b.y as int, cx as int, cy as int),
        -0x2_0000_0000_0000_0000 <= r <= 0x2_0000_0000_0000_0000,
{
    let dcx = cx as i128 - a.x as i128;
    let dby = b.y as i128 - a.y as i128;
    let dcy = cy as i128 - a.y as i128;
    let dbx = b.x as i128 - a.x as i128;
    assert(-0x1_0000_0000_0000_0000 <= dcx * dby <= 0x1_0000_0000_0000_0000) by (nonlinear_arith)
        requires
            -0x1_0000_0000 <= dcx <= 0x1_0000_0000,
            -0x1_0000_0000 <= dby <= 0x1_0000_0000,
    ;
    assert(-0x1_0000_0000_0000_0000 <= dcy * dbx <= 0x1_0000_0000_0000_0000) by (nonlinear_arith)
        requires
            -0x1_0000_0000 <= dcy <= 0x1_0000_0000,
            -0x1_0000_0000 <= dbx <= 0x1_0000_0000,
    ;
    dcx * dby - dcy * dbx
}

/// Twice the signed area of the triangle `v0, v1, v2`.
pub fn signed_area(v0: ScreenVertex, v1: ScreenVertex, v2: ScreenVertex) -> (r: i128)
    ensures
        r == area_spec(v0, v1, v2),
        -0x2_0000_0000_0000_0000 <= r <= 0x2_0000_0000_0000_0000,
{
    -edge(v0, v1, v2.x, v2.y)
}

/// The three unnormalised barycentric weights of `(px, py)`, in corner order.
/// Dividing each by the signed area gives the true weights.
pub fn barycentric(v0: ScreenVertex, v1: ScreenVertex, v2: ScreenVertex, px: i32, py: i32) -> (r: (
    i128,
    i128,
    i128,
))
    ensures
        r.0 == weight0(v0, v1, v2, px as int, py as int),
        r.1 == weight1(v0, v1, v2, px as int, py as int),
        r.2 == weight2(v0, v1, v2, px as int, py as int),
        r.0 + r.1 + r.2 == area_spec(v0, v1, v2),
        -0x2_0000_0000_0000_0000 <= r.0 <= 0x2_0000_0000_0000_0000,
        -0x2_0000_0000_0000_0000 <= r.1 <= 0x2_0000_0000_0000_0000,
        -0x2_0000_0000_0000_0000 <= r.2 <= 0x2_0000_0000_0000_0000,
{
    proof {
        lemma_weights_sum(v0, v1, v2, px as int, py as int);
    }
    (-edge(v1, v2, px, py), -edge(v2, v0, px, py), -edge(v0, v1, px, py))
}

/// The three barycentric weights of any point add up to the signed area, so
/// once divided by it they add up to exactly one.
pub proof fn lemma_weights_sum(v0: ScreenVertex, v1: ScreenVertex, v2: ScreenVertex, px: int, py: int)
    ensures
        weight0(v0, v1, v2, px, py) + weight1(v0, v1, v2, px, py) + weight2(v0, v1, v2, px, py)
            == area_spec(v0, v1, v2),
{
    let (x0, y0, x1, y1, x2, y2) = (
        v0.x as int,
        v0.y as int,
        v1.x as int,
        v1.y as int,
        v2.x as int,
        v2.y as int,
    );
    let (ux, uy) = (px - x0, py - y0);
    let (ax, ay) = (x1 - x0, y1 - y0);
    let (bx, by) = (x2 - x0, y2 - y0);
    assert(edge_spec(x1, y1, x2, y2, px, py) == (ux - ax) * (by - ay) - (uy - ay) * (bx - ax));
    assert(edge_spec(x2, y2, x0, y0, px, py) == (ux - bx) * (0 - by) - (uy - by) * (0 - bx));
    assert(edge_spec(x0, y0, x1, y1, px, py) == ux * ay - uy * ax);
    assert(edge_spec(x0, y0, x1, y1, x2, y2) == bx * ay - by * ax);
    lemma_expand(ux, ax, by, ay);
    lemma_expand(uy, ay, bx, ax);
    lemma_expand(ux, bx, 0, by);
    lemma_expand(uy, by, 0, bx);
}

/// The weights of a point recombine the corners into the point, scaled by
/// the signed area: `area * p == w0 * v0 + w1 * v1 + w2 * v2`.
pub proof fn lemma_barycentric_identity(v0: ScreenVertex, v1: ScreenVertex, v2: ScreenVertex, px: int, py: int)
    ensures
        area_spec(v0, v1, v2) * px == weight0(v0, v1, v2, px, py) * v0.x + weight1(v0, v1, v2, px, py) * v1.x
            + weight2(v0, v1, v2, px, py) * v2.x,
        area_spec(v0, v1, v2) * py == weight0(v0, v1, v2, px, py) * v0.y + weight1(v0, v1, v2, px, py) * v1.y
            + weight2(v0, v1, v2, px, py) * v2.y,
{
    let (x0, y0) = (v0.x as int, v0.y as int);
    let (ux, uy) = (px - x0, py - y0);
    let (ax, ay) = (v1.x - x0, v1.y - y0);
    let (bx, by) = (v2.x - x0, v2.y - y0);
    let a = area_spec(v0, v1, v2);
    let w0 = weight0(v0, v1, v2, px, py);
    let w1 = weight1(v0, v1, v2, px, py);
    let w2 = weight2(v0, v1, v2, px, py);
    lemma_weights_sum(v0, v1, v2, px, py);
    lemma_expand(ux, bx, 0, by);
    lemma_expand(uy, by, 0, bx);
    assert(w1 == ux * by - uy * bx) by (nonlinear_arith)
        requires
            w1 == -((px - v2.x) * (v0.y - v2.y) - (py - v2.y) * (v0.x - v2.x)),
            ux == px - x0,
            uy == py - y0,
            bx == v2.x - x0,
            by == v2.y - y0,
            x0 == v0.x,
            y0 == v0.y,
    ;
    assert(w2 == uy * ax - ux * ay) by (nonlinear_arith)
        requires
            w2 == -((px - v0.x) * (v1.y - v0.y) - (py - v0.y) * (v1.x - v0.x)),
            ux == px - x0,
            uy == py - y0,
            ax == v1.x - x0,
            ay == v1.y - y0,
            x0 == v0.x,
            y0 == v0.y,
    ;
    assert(a == by * ax - bx * ay) by (nonlinear_arith)
        requires
            a == -((v2.x - v0.x) * (v1.y - v0.y) - (v2.y - v0.y) * (v1.x - v0.x)),
            ax == v1.x - x0,
            ay == v1.y - y0,
            bx == v2.x - x0,
            by == v2.y - y0,
            x0 == v0.x,
            y0 == v0.y,
    ;
    assert(a * ux == w1 * ax + w2 * bx) by (nonlinear_arith)
        requires
            w1 == ux * by - uy * bx,
            w2 == uy * ax - ux * ay,
            a == by * ax - bx * ay,
    ;
    assert(a * uy == w1 * ay + w2 * by) by (nonlinear_arith)
        requires
            w1 == ux * by - uy * bx,
            w2 == uy * ax - ux * ay,
            a == by * ax - bx * ay,
    ;
    assert(a * px == w0 * v0.x + w1 * v1.x + w2 * v2.x) by (nonlinear_arith)
        requires
            a * ux == w1 * ax + w2 * bx,
            w0 + w1 + w2 == a,
            ux == px - x0,
            ax == v1.x - x0,
            bx == v2.x - x0,
            x0 == v0.x,
    ;
    assert(a * py == w0 * v0.y + w1 * v1.y + w2 * v2.y) by (nonlinear_arith)
        requires
            a * uy == w1 * ay + w2 * by,
            w0 + w1 + w2 == a,
            uy == py - y0,
            ay == v1.y - y0,
            by == v2.y - y0,
            y0 == v0.y,
    ;
}

/// A pixel whose centre lies strictly inside a counter-clockwise triangle is
/// covered, and its weights add up to the signed area. "Strictly inside" is
/// given by positive integer coefficients `k0, k1, k2` with
/// `(k0 + k1 + k2) * p == k0 * v0 + k1 * v1 + k2 * v2`.
pub proof fn lemma_interior_pixel_covered(
    v0: ScreenVertex,
    v1: ScreenVertex,
    v2: ScreenVertex,
    px: int,
    py: int,
    k0: int,
    k1: int,
    k2: int,
)
    requires
        area_spec(v0, v1, v2) > 0,
        k0 > 0,
        k1 > 0,
        k2 > 0,
        (k0 + k1 + k2) * px == k0 * v0.x + k1 * v1.x + k2 * v2.x,
        (k0 + k1 + k2) * py == k0 * v0.y + k1 * v1.y + k2 * v2.y,
    ensures
        covers(v0, v1, v2, px, py),
        weight0(v0, v1, v2, px, py) > 0,
        weight1(v0, v1, v2, px, py) > 0,
        weight2(v0, v1, v2, px, py) > 0,
        weight0(v0, v1, v2, px, py) + weight1(v0, v1, v2, px, py) + weight2(v0, v1, v2, px, py)
            == area_spec(v0, v1, v2),
{
    let s = k0 + k1 + k2;
    let a = area_spec(v0, v1, v2);
    let (x0, y0, x1, y1, x2, y2) = (
        v0.x as int,
        v0.y as int,
        v1.x as int,
        v1.y as int,
        v2.x as int,
        v2.y as int,
    );
    lemma_scaled_weight(x1, y1, x2, y2, x0, y0, px, py, k1, k2, k0);
    lemma_scaled_weight(x2, y2, x0, y0, x1, y1, px, py, k2, k0, k1);
    lemma_scaled_weight(x0, y0, x1, y1, x2, y2, px, py, k0, k1, k2);
    assert(edge_spec(x1, y1, x2, y2, x0, y0) == edge_spec(x0, y0, x1, y1, x2, y2)) by (nonlinear_arith);
    assert(edge_spec(x2, y2, x0, y0, x1, y1) == edge_spec(x0, y0, x1, y1, x2, y2)) by (nonlinear_arith);
    let w0 = weight0(v0, v1, v2, px, py);
    let w1 = weight1(v0, v1, v2, px, py);
    let w2 = weight2(v0, v1, v2, px, py);
    lemma_neg_scale(s, w0, k0, a);
    lemma_neg_scale(s, w1, k1, a);
    lemma_neg_scale(s, w2, k2, a);
    assert(k0 * a > 0 && k1 * a > 0 && k2 * a > 0) by (nonlinear_arith)
        requires
            k0 > 0,
            k1 > 0,
            k2 > 0,
            a > 0,
    ;
    lemma_pos_factor(s, w0, k0 * a);
    lemma_pos_factor(s, w1, k1 * a);
    lemma_pos_factor(s, w2, k2 * a);
    lemma_weights_sum(v0, v1, v2, px, py);
}

/// Scaling the edge function of `a -> b` at a combination of three points: the
/// two corners of the edge drop out.
proof fn lemma_scaled_weight(
    ax: int,
    ay: int,
    bx: int,
    by: int,
    cx: int,
    cy: int,
    px: int,
    py: int,
    ka: int,
    kb: int,
    kc: int,
)
    requires
        (ka + kb + kc) * px == ka * ax + kb * bx + kc * cx,
        (ka + kb + kc) * py == ka * ay + kb * by + kc * cy,
    ensures
        (ka + kb + kc) * edge_spec(ax, ay, bx, by, px, py) == kc * edge_spec(ax, ay, bx, by, cx, cy),
{
    let s = ka + kb + kc;
    assert(s * (px - ax) == kb * (bx - ax) + kc * (cx - ax)) by (nonlinear_arith)
        requires
            s == ka + kb + kc,
            s * px == ka * ax + kb * bx + kc * cx,
    ;
    assert(s * (py - ay) == kb * (by - ay) + kc * (cy - ay)) by (nonlinear_arith)
        requires
            s == ka + kb + kc,
            s * py == ka * ay + kb * by + kc * cy,
    ;
    assert(s * edge_spec(ax, ay, bx, by, px, py) == (s * (px - ax)) * (by - ay) - (s * (py - ay))
        * (bx - ax)) by (nonlinear_arith);
    assert((kb * (bx - ax) + kc * (cx - ax)) * (by - ay) - (kb * (by - ay) + kc * (cy - ay)) * (bx
        - ax) == kc * edge_spec(ax, ay, bx, by, cx, cy)) by (nonlinear_arith);
}

proof fn lemma_expand(a: int, b: int, c: int, d: int)
    ensures
        (a - b) * (c - d) == a * c - a * d - b * c + b * d,
{
    assert((a - b) * (c - d) == a * c - a * d - b * c + b * d) by (nonlinear_arith);
}

proof fn lemma_neg_scale(s: int, w: int, k: int, a: int)
    requires
        s * (-w) == k * (-a),
    ensures
        s * w == k * a,
{
    assert(s * w == k * a) by (nonlinear_arith)
        requires
            s * (-w) == k * (-a),
    ;
}

proof fn lemma_pos_factor(s: int, w: int, p: int)
    requires
        s > 0,
        p > 0,
        s * w == p,
    ensures
        w > 0,
{
    if w <= 0 {
        assert(s * w <= 0) by (nonlinear_arith)
            requires
                s > 0,
                w <= 0,
        ;
    }
}

/// `a - b` for two fixed-point vectors.
pub open spec fn sub_spec(a: Vec3, b: Vec3) -> (int, int, int) {
    (a.x - b.x, a.y - b.y, a.z - b.z)
}

/// Cross product of two integer vectors.
pub open spec fn cross_spec(a: (int, int, int), b: (int, int, int)) -> (int, int, int) {
    (a.1 * b.2 - a.2 * b.1, a.2 * b.0 - a.0 * b.2, a.0 * b.1 - a.1 * b.0)
}

/// The face normal of a triangle under its counter-clockwise winding:
/// `(p2 - p0) x (p1 - p0)`.
pub open spec fn face_normal_spec(p: [Vec3; 3]) -> (int, int, int) {
    cross_spec(sub_spec(p[2], p[0]), sub_spec(p[1], p[0]))
}

fn mul_diff(a: i64, b: i64, c: i64, d: i64) -> (r: i64)
    requires
        -0x10000 <= a <= 0x10000,
        -0x10000 <= b <= 0x10000,
        -0x10000 <= c <= 0x10000,
        -0x10000 <= d <= 0x10000,
    ensures
        r == a * b - c * d,
        -0x2_0000_0000 <= r <= 0x2_0000_0000,
{
    assert(-0x1_0000_0000 <= a * b <= 0x1_0000_0000) by (nonlinear_arith)
        requires
            -0x10000 <= a <= 0x10000,
            -0x10000 <= b <= 0x10000,
    ;
    assert(-0x1_0000_0000 <= c * d <= 0x1_0000_0000) by (nonlinear_arith)
        requires
            -0x10000 <= c <= 0x10000,
            -0x10000 <= d <= 0x10000,
    ;
    a * b - c * d
}

/// The (unnormalised) face normal of a triangle given by its positions before
/// projection.
pub fn face_normal(p: [Vec3; 3]) -> (r: (i64, i64, i64))
    ensures
        (r.0 as int, r.1 as int, r.2 as int) == face_normal_spec(p),
        -0x2_0000_0000 <= r.0 <= 0x2_0000_0000,
        -0x2_0000_0000 <= r.1 <= 0x2_0000_0000,
        -0x2_0000_0000 <= r.2 <= 0x2_0000_0000,
{
    let ax = p[2].x as i64 - p[0].x as i64;
    let ay = p[2].y as i64 - p[0].y as i64;
    let az = p[2].z as i64 - p[0].z as i64;
    let bx = p[1].x as i64 - p[0].x as i64;
    let by = p[1].y as i64 - p[0].y as i64;
    let bz = p[1].z as i64 - p[0].z as i64;
    (mul_diff(ay, bz, az, by), mul_diff(az, bx, ax, bz), mul_diff(ax, by, ay, bx))
}

} // verus!
