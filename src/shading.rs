use vstd::prelude::*;
use crate::color::{Color, FULL_INTENSITY, packed, scaled_channel};
use crate::geometry::{ScreenVertex, face_normal_spec};
use crate::rasteriser::{TriangleData, TriangleShading, CURVE_LEN};

verus! {

/// Largest magnitude of an unnormalised barycentric weight of a pixel.
pub const WEIGHT_BOUND: i128 = 0x2_0000_0000_0000_0000;

/// Fixed-point value of barycentric weight 1.0 when corner normals are
/// blended.
pub const UNIT_WEIGHT: i128 = 0x10000;

/// The barycentric weight `w / area`, in [0, 1], in fixed point.
pub open spec fn unit_weight(w: int, area: int) -> int {
    (w * UNIT_WEIGHT) / area
}

/// The normal that lights a pixel, scaled by a positive factor: the face
/// normal for flat shading; for Gouraud shading the corner normals blended by
/// the fixed-point barycentric weights and negated, which matches the face
/// normal's winding.
pub open spec fn surface_normal(
    tri: TriangleData,
    mode: TriangleShading,
    w0: int,
    w1: int,
    w2: int,
    area: int,
) -> (int, int, int) {
    let (u0, u1, u2) = (unit_weight(w0, area), unit_weight(w1, area), unit_weight(w2, area));
    match mode {
        TriangleShading::Gouraud => match tri.normal {
            Some(n) => (
                -(u0 * n[0].x + u1 * n[1].x + u2 * n[2].x),
                -(u0 * n[0].y + u1 * n[1].y + u2 * n[2].y),
                -(u0 * n[0].z + u1 * n[1].z + u2 * n[2].z),
            ),
            None => (0, 0, 0),
        },
        _ => face_normal_spec(tri.world),
    }
}

/// Dot product of a normal with the fixed light direction `(0, 0, -1)`.
pub open spec fn light_dot(n: (int, int, int)) -> int {
    -n.2
}

pub open spec fn norm_sq(n: (int, int, int)) -> int {
    n.0 * n.0 + n.1 * n.1 + n.2 * n.2
}

/// The squared light cosine in levels 0 ..= 255.
pub open spec fn cos_sq_level(n: (int, int, int)) -> int {
    (255 * (light_dot(n) * light_dot(n))) / norm_sq(n)
}

/// Intensity level of a pixel with normal `n`, or `None` when the light does
/// not reach it (the cosine is not positive).
pub open spec fn intensity_spec(curve: Seq<u8>, n: (int, int, int)) -> Option<u8> {
    if light_dot(n) <= 0 {
        None
    } else {
        Some(curve[cos_sq_level(n)])
    }
}

/// The color before lighting: the sampled texel, or white without a texture.
pub open spec fn base_color(tri: TriangleData, w0: int, w1: int, w2: int, area: int) -> (int, int, int) {
    match tri.texture {
        Some(t) => {
            let o = t.texel_offset(w0, w1, w2, area);
            (t.texture@[o] as int, t.texture@[o + 1] as int, t.texture@[o + 2] as int)
        },
        None => (FULL_INTENSITY as int, FULL_INTENSITY as int, FULL_INTENSITY as int),
    }
}

/// The packed color of a covered pixel, or `None` when lighting rejects it.
pub open spec fn shaded_color(
    curve: Seq<u8>,
    tri: TriangleData,
    mode: TriangleShading,
    w0: int,
    w1: int,
    w2: int,
    area: int,
) -> Option<int> {
    match intensity_spec(curve, surface_normal(tri, mode, w0, w1, w2, area)) {
        Some(i) => {
            let c = base_color(tri, w0, w1, w2, area);
            Some(
                packed(
                    scaled_channel(c.0, i as int),
                    scaled_channel(c.1, i as int),
                    scaled_channel(c.2, i as int),
                ),
            )
        },
        None => None,
    }
}

/// Depth interpolated from the corners' depths by the weights.
pub open spec fn depth_spec(p: [ScreenVertex; 3], w0: int, w1: int, w2: int, area: int) -> int {
    (w0 * p[0].z + w1 * p[1].z + w2 * p[2].z) / area
}

pub open spec fn weights_ok(w0: int, w1: int, w2: int, area: int) -> bool {
    &&& 0 <= w0 <= WEIGHT_BOUND
    &&& 0 <= w1 <= WEIGHT_BOUND
    &&& 0 <= w2 <= WEIGHT_BOUND
    &&& 0 < area <= WEIGHT_BOUND
    &&& w0 + w1 + w2 == area
}

proof fn lemma_blend_bound(w0: int, w1: int, w2: int, a: int, b: int, c: int)
    requires
        0 <= w0 <= UNIT_WEIGHT,
        0 <= w1 <= UNIT_WEIGHT,
        0 <= w2 <= UNIT_WEIGHT,
        -0x8000 <= a <= 0x8000,
        -0x8000 <= b <= 0x8000,
        -0x8000 <= c <= 0x8000,
    ensures
        -0x2_0000_0000_0000 <= w0 * a <= 0x2_0000_0000_0000,
        -0x2_0000_0000_0000 <= w1 * b <= 0x2_0000_0000_0000,
        -0x2_0000_0000_0000 <= w2 * c <= 0x2_0000_0000_0000,
        -0x8_0000_0000_0000 <= w0 * a + w1 * b + w2 * c <= 0x8_0000_0000_0000,
{
    assert(-0x2_0000_0000_0000 <= w0 * a <= 0x2_0000_0000_0000) by (nonlinear_arith)
        requires
            0 <= w0 <= UNIT_WEIGHT,
            -0x8000 <= a <= 0x8000,
    ;
    assert(-0x2_0000_0000_0000 <= w1 * b <= 0x2_0000_0000_0000) by (nonlinear_arith)
        requires
            0 <= w1 <= UNIT_WEIGHT,
            -0x8000 <= b <= 0x8000,
    ;
    assert(-0x2_0000_0000_0000 <= w2 * c <= 0x2_0000_0000_0000) by (nonlinear_arith)
        requires
            0 <= w2 <= UNIT_WEIGHT,
            -0x8000 <= c <= 0x8000,
    ;
}

fn blend(w0: i128, w1: i128, w2: i128, a: i16, b: i16, c: i16) -> (r: i128)
    requires
        0 <= w0 <= UNIT_WEIGHT,
        0 <= w1 <= UNIT_WEIGHT,
        0 <= w2 <= UNIT_WEIGHT,
    ensures
        r == -(w0 * a + w1 * b + w2 * c),
        -0x8_0000_0000_0000 <= r <= 0x8_0000_0000_0000,
{
    proof {
        lemma_blend_bound(w0 as int, w1 as int, w2 as int, a as int, b as int, c as int);
    }
    -(w0 * (a as i128) + w1 * (b as i128) + w2 * (c as i128))
}

/// The lighting normal of a pixel; `flat` is the triangle's face normal.
pub fn lighting_normal(
    tri: &TriangleData,
    mode: TriangleShading,
    flat: (i64, i64, i64),
    w0: i128,
    w1: i128,
    w2: i128,
    area: i128,
) -> (n: (i128, i128, i128))
    requires
        (flat.0 as int, flat.1 as int, flat.2 as int) == face_normal_spec(tri.world),
        -0x2_0000_0000 <= flat.0 <= 0x2_0000_0000,
        -0x2_0000_0000 <= flat.1 <= 0x2_0000_0000,
        -0x2_0000_0000 <= flat.2 <= 0x2_0000_0000,
        weights_ok(w0 as int, w1 as int, w2 as int, area as int),
    ensures
        (n.0 as int, n.1 as int, n.2 as int) == surface_normal(*tri, mode, w0 as int, w1 as int, w2 as int, area as int),
        -0x8_0000_0000_0000 <= n.0 <= 0x8_0000_0000_0000,
        -0x8_0000_0000_0000 <= n.1 <= 0x8_0000_0000_0000,
        -0x8_0000_0000_0000 <= n.2 <= 0x8_0000_0000_0000,
{
    match mode {
        TriangleShading::Gouraud => match &tri.normal {
            Some(n) => {
                let u0 = unit(w0, area);
                let u1 = unit(w1, area);
                let u2 = unit(w2, area);
                (
                    blend(u0, u1, u2, n[0].x, n[1].x, n[2].x),
                    blend(u0, u1, u2, n[0].y, n[1].y, n[2].y),
                    blend(u0, u1, u2, n[0].z, n[1].z, n[2].z),
                )
            },
            None => (0, 0, 0),
        },
        _ => (flat.0 as i128, flat.1 as i128, flat.2 as i128),
    }
}

fn unit(w: i128, area: i128) -> (u: i128)
    requires
        0 <= w <= area,
        0 < area <= WEIGHT_BOUND,
    ensures
        u == unit_weight(w as int, area as int),
        0 <= u <= UNIT_WEIGHT,
{
    proof {
        assert(0 <= w * UNIT_WEIGHT <= area * UNIT_WEIGHT) by (nonlinear_arith)
            requires
                0 <= w <= area,
        ;
        assert(area * UNIT_WEIGHT <= 0x2_0000_0000_0000_0000_0000) by (nonlinear_arith)
            requires
                0 < area <= WEIGHT_BOUND,
        ;
        vstd::arithmetic::div_mod::lemma_div_is_ordered(w * UNIT_WEIGHT, area * UNIT_WEIGHT, area as int);
        assert(area * UNIT_WEIGHT == UNIT_WEIGHT * area) by (nonlinear_arith);
        vstd::arithmetic::div_mod::lemma_div_by_multiple(UNIT_WEIGHT as int, area as int);
        vstd::arithmetic::div_mod::lemma_div_pos_is_pos(w * UNIT_WEIGHT, area as int);
    }
    w * UNIT_WEIGHT / area
}

/// The intensity level that lights a pixel with normal `n`, or `None` when
/// the light does not reach it.
pub fn intensity_level(curve: &Vec<u8>, n: (i128, i128, i128)) -> (r: Option<u8>)
    requires
        curve@.len() == CURVE_LEN,
        -0x8_0000_0000_0000 <= n.0 <= 0x8_0000_0000_0000,
        -0x8_0000_0000_0000 <= n.1 <= 0x8_0000_0000_0000,
        -0x8_0000_0000_0000 <= n.2 <= 0x8_0000_0000_0000,
    ensures
        r == intensity_spec(curve@, (n.0 as int, n.1 as int, n.2 as int)),
{
    let d = -n.2;
    if d <= 0 {
        return None;
    }
    proof {
        assert(0 <= n.0 * n.0 <= 0x40_0000_0000_0000_0000_0000_0000) by (nonlinear_arith)
            requires
                -0x8_0000_0000_0000 <= n.0 <= 0x8_0000_0000_0000,
        ;
        assert(0 <= n.1 * n.1 <= 0x40_0000_0000_0000_0000_0000_0000) by (nonlinear_arith)
            requires
                -0x8_0000_0000_0000 <= n.1 <= 0x8_0000_0000_0000,
        ;
        assert(0 < n.2 * n.2 <= 0x40_0000_0000_0000_0000_0000_0000) by (nonlinear_arith)
            requires
                -0x8_0000_0000_0000 <= n.2 < 0,
        ;
        assert(d * d == n.2 * n.2) by (nonlinear_arith)
            requires
                d == -n.2,
        ;
    }
    let ns = n.0 * n.0 + n.1 * n.1 + n.2 * n.2;
    let level = (255 * (d * d)) / ns;
    proof {
        vstd::arithmetic::div_mod::lemma_div_is_ordered(255 * (d * d), 255 * ns, ns as int);
        vstd::arithmetic::div_mod::lemma_div_by_multiple(255, ns as int);
        assert(255 * ns == ns * 255) by (nonlinear_arith);
        vstd::arithmetic::div_mod::lemma_div_pos_is_pos(255 * (d * d), ns as int);
    }
    Some(curve[level as usize])
}

/// The color before lighting at the given weights.
pub fn base_color_at(tri: &TriangleData, w0: i128, w1: i128, w2: i128, area: i128) -> (c: Color)
    requires
        weights_ok(w0 as int, w1 as int, w2 as int, area as int),
        tri.texture is Some ==> tri.texture->0.wf(),
    ensures
        (c.r as int, c.g as int, c.b as int) == base_color(*tri, w0 as int, w1 as int, w2 as int, area as int),
{
    match &tri.texture {
        Some(t) => t.sample(w0, w1, w2, area),
        None => Color::new_from_rgb(FULL_INTENSITY, FULL_INTENSITY, FULL_INTENSITY),
    }
}

/// Interpolates the corners' depths at the given weights.
pub fn interpolate_depth(p: &[ScreenVertex; 3], w0: i128, w1: i128, w2: i128, area: i128) -> (d: u32)
    requires
        weights_ok(w0 as int, w1 as int, w2 as int, area as int),
    ensures
        d == depth_spec(*p, w0 as int, w1 as int, w2 as int, area as int),
{
    let z0 = p[0].z as i128;
    let z1 = p[1].z as i128;
    let z2 = p[2].z as i128;
    proof {
        assert(0 <= w0 * z0 <= w0 * 0xFFFF_FFFF) by (nonlinear_arith)
            requires
                0 <= w0,
                0 <= z0 <= 0xFFFF_FFFF,
        ;
        assert(0 <= w1 * z1 <= w1 * 0xFFFF_FFFF) by (nonlinear_arith)
            requires
                0 <= w1,
                0 <= z1 <= 0xFFFF_FFFF,
        ;
        assert(0 <= w2 * z2 <= w2 * 0xFFFF_FFFF) by (nonlinear_arith)
            requires
                0 <= w2,
                0 <= z2 <= 0xFFFF_FFFF,
        ;
        assert(w0 * 0xFFFF_FFFF + w1 * 0xFFFF_FFFF + w2 * 0xFFFF_FFFF == area * 0xFFFF_FFFF) by (nonlinear_arith)
            requires
                w0 + w1 + w2 == area,
        ;
        let s = w0 * z0 + w1 * z1 + w2 * z2;
        vstd::arithmetic::div_mod::lemma_div_is_ordered(s, area * 0xFFFF_FFFF, area as int);
        assert(area * 0xFFFF_FFFF == 0xFFFF_FFFF * area) by (nonlinear_arith);
        vstd::arithmetic::div_mod::lemma_div_by_multiple(0xFFFF_FFFF, area as int);
        vstd::arithmetic::div_mod::lemma_div_pos_is_pos(s, area as int);
    }
    ((w0 * z0 + w1 * z1 + w2 * z2) / area) as u32
}

/// The packed color of a covered pixel, or `None` when lighting rejects it.
pub fn shade(
    curve: &Vec<u8>,
    tri: &TriangleData,
    mode: TriangleShading,
    flat: (i64, i64, i64),
    w0: i128,
    w1: i128,
    w2: i128,
    area: i128,
) -> (r: Option<u32>)
    requires
        curve@.len() == CURVE_LEN,
        weights_ok(w0 as int, w1 as int, w2 as int, area as int),
        tri.texture is Some ==> tri.texture->0.wf(),
        (flat.0 as int, flat.1 as int, flat.2 as int) == face_normal_spec(tri.world),
        -0x2_0000_0000 <= flat.0 <= 0x2_0000_0000,
        -0x2_0000_0000 <= flat.1 <= 0x2_0000_0000,
        -0x2_0000_0000 <= flat.2 <= 0x2_0000_0000,
    ensures
        r matches Some(c) ==> shaded_color(curve@, *tri, mode, w0 as int, w1 as int, w2 as int, area as int)
            == Some(c as int),
        r is None <==> shaded_color(curve@, *tri, mode, w0 as int, w1 as int, w2 as int, area as int) is None,
{
    let n = lighting_normal(tri, mode, flat, w0, w1, w2, area);
    match intensity_level(curve, n) {
        Some(i) => {
            let mut c = base_color_at(tri, w0, w1, w2, area);
            c.modify_intensity(i);
            Some(c.get_pixel_color())
        },
        None => None,
    }
}

} // verus!
