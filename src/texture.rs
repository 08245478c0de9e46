use vstd::prelude::*;
use std::rc::Rc;
use crate::color::Color;

verus! {

/// Fixed-point value of texture coordinate 1.0.
pub const TEX_ONE: i32 = 0x10000;

/// A texture coordinate in fixed point (`TEX_ONE` is 1.0).
#[derive(Clone, Copy, Debug, PartialEq, Eq, Structural)]
pub struct TexCoord {
    pub u: i32,
    pub v: i32,
}

/// A texture bound to one triangle: shared RGBA pixel data (4 bytes a pixel,
/// row by row from the bottom row up), its size, and the texture coordinate of
/// each corner of the triangle.
#[derive(Clone)]
pub struct TextureData {
    pub texture: Rc<Vec<u8>>,
    pub width: usize,
    pub height: usize,
    pub points: [TexCoord; 3],
}

/// Nearest texel along one axis for the interpolated coordinate
/// `num / area` (in fixed point), clamped to `[0, size - 1]`.
pub open spec fn texel_axis(num: int, area: int, size: int) -> int {
    if num <= 0 {
        0
    } else if num / area >= TEX_ONE {
        size - 1
    } else {
        (num / area) * size / (TEX_ONE as int)
    }
}

/// Weighted sum of the three corner values of one texture axis.
pub open spec fn weighted(w0: int, w1: int, w2: int, t0: int, t1: int, t2: int) -> int {
    w0 * t0 + w1 * t1 + w2 * t2
}

impl TextureData {
    pub open spec fn wf(&self) -> bool {
        &&& self.width >= 1
        &&& self.height >= 1
        &&& self.texture@.len() == self.width * self.height * 4
    }

    /// Byte offset of the texel sampled at the unnormalised weights
    /// `w0, w1, w2` of a triangle of signed area `area`.
    pub open spec fn texel_offset(&self, w0: int, w1: int, w2: int, area: int) -> int {
        let p = self.points;
        let tx = texel_axis(weighted(w0, w1, w2, p[0].u as int, p[1].u as int, p[2].u as int), area, self.width as int);
        let ty = texel_axis(weighted(w0, w1, w2, p[0].v as int, p[1].v as int, p[2].v as int), area, self.height as int);
        (tx + ty * self.width) * 4
    }

    pub fn new(texture: Rc<Vec<u8>>, width: usize, height: usize, points: [TexCoord; 3]) -> (t: TextureData)
        ensures
            t.texture == texture,
            t.width == width,
            t.height == height,
            t.points == points,
    {
        TextureData { texture, width, height, points }
    }

    /// Whether the pixel data holds exactly `width * height` RGBA pixels of a
    /// non-empty texture.
    pub fn is_well_formed(&self) -> (b: bool)
        ensures
            b == self.wf(),
    {
        if self.width == 0 || self.height == 0 {
            return false;
        }
        let data: &Vec<u8> = &self.texture;
        let len = data.len();
        match self.width.checked_mul(self.height) {
            Some(n) => match n.checked_mul(4) {
                Some(m) => len == m,
                None => false,
            },
            None => {
                proof {
                    assert(self.width * self.height * 4 >= self.width * self.height) by (nonlinear_arith)
                        requires
                            self.width * self.height >= 0,
                    ;
                }
                false
            },
        }
    }

    /// Samples the texture with nearest-neighbour addressing at the point whose
    /// unnormalised barycentric weights are `w0, w1, w2` (their sum is the
    /// signed area `area`). Coordinates outside `[0, 1]` are clamped to the
    /// border texels.
    pub fn sample(&self, w0: i128, w1: i128, w2: i128, area: i128) -> (c: Color)
        requires
            self.wf(),
            0 < area <= 0x4_0000_0000_0000_0000,
            0 <= w0 <= 0x4_0000_0000_0000_0000,
            0 <= w1 <= 0x4_0000_0000_0000_0000,
            0 <= w2 <= 0x4_0000_0000_0000_0000,
        ensures
            0 <= self.texel_offset(w0 as int, w1 as int, w2 as int, area as int),
            self.texel_offset(w0 as int, w1 as int, w2 as int, area as int) + 2 < self.texture@.len(),
            c.r == self.texture@[self.texel_offset(w0 as int, w1 as int, w2 as int, area as int)],
            c.g == self.texture@[self.texel_offset(w0 as int, w1 as int, w2 as int, area as int) + 1],
            c.b == self.texture@[self.texel_offset(w0 as int, w1 as int, w2 as int, area as int) + 2],
    {
        let p = self.points;
        let nu = weighted_sum(w0, w1, w2, p[0].u, p[1].u, p[2].u);
        let nv = weighted_sum(w0, w1, w2, p[0].v, p[1].v, p[2].v);
        let tx = nearest_texel(nu, area, self.width);
        let ty = nearest_texel(nv, area, self.height);
        let data: &Vec<u8> = &self.texture;
        let len = data.len();
        proof {
            assert(0 <= ty * self.width <= (self.height - 1) * self.width) by (nonlinear_arith)
                requires
                    0 <= ty < self.height,
                    self.width >= 1,
            ;
            assert((tx + ty * self.width) * 4 + 3 <= self.width * self.height * 4) by (nonlinear_arith)
                requires
                    0 <= tx < self.width,
                    0 <= ty < self.height,
            ;
        }
        let idx = (tx + ty * self.width) * 4;
        Color::new_from_rgb(data[idx], data[idx + 1], data[idx + 2])
    }
}

/// The byte of a decoded image that lands at byte `j` of the texture: images
/// are stored from the top row down, textures from the bottom row up, and the
/// alpha byte of every texel is left 0.
pub open spec fn flipped_byte(pixels: Seq<u8>, width: int, height: int, j: int) -> u8 {
    let p = j / 4;
    let c = j % 4;
    if c < 3 {
        pixels[((height - 1 - p / width) * width + p % width) * 4 + c]
    } else {
        0
    }
}

/// Turns RGBA rows stored from the top down into texture rows stored from the
/// bottom up, keeping the three color bytes of each pixel.
pub fn flip_rows(pixels: &Vec<u8>, width: usize, height: usize) -> (r: Vec<u8>)
    requires
        width >= 1,
        height >= 1,
        pixels@.len() == width * height * 4,
    ensures
        r@.len() == pixels@.len(),
        forall|j: int| 0 <= j < r@.len() ==> r@[j] == flipped_byte(pixels@, width as int, height as int, j),
{
    let n = pixels.len();
    let mut r: Vec<u8> = Vec::with_capacity(n);
    let mut j: usize = 0;
    while j < n
        invariant
            n == pixels@.len(),
            n == width * height * 4,
            width >= 1,
            height >= 1,
            0 <= j <= n,
            r@.len() == j,
            forall|k: int| 0 <= k < j ==> r@[k] == flipped_byte(pixels@, width as int, height as int, k),
        decreases n - j,
    {
        let p = j / 4;
        let c = j % 4;
        if c < 3 {
            let row = p / width;
            let col = p % width;
            proof {
                assert(p < width * height) by (nonlinear_arith)
                    requires
                        p == j / 4,
                        j < width * height * 4,
                ;
                crate::rasteriser::lemma_index_pixel(width as int, height as int, p as int);
                crate::rasteriser::lemma_coord_bijection(
                    width as int,
                    height as int,
                    col as int,
                    (height - 1 - row) as int,
                );
                assert(((height - 1 - row) * width + col) * 4 + c < n) by (nonlinear_arith)
                    requires
                        (height - 1 - row) * width + col < width * height,
                        0 <= (height - 1 - row) * width + col,
                        c < 4,
                        n == width * height * 4,
                ;
            }
            r.push(pixels[((height - 1 - row) * width + col) * 4 + c]);
        } else {
            r.push(0);
        }
        j = j + 1;
    }
    r
}

fn weighted_sum(w0: i128, w1: i128, w2: i128, t0: i32, t1: i32, t2: i32) -> (r: i128)
    requires
        0 <= w0 <= 0x4_0000_0000_0000_0000,
        0 <= w1 <= 0x4_0000_0000_0000_0000,
        0 <= w2 <= 0x4_0000_0000_0000_0000,
    ensures
        r == weighted(w0 as int, w1 as int, w2 as int, t0 as int, t1 as int, t2 as int),
{
    proof {
        lemma_term_bound(w0 as int, t0 as int);
        lemma_term_bound(w1 as int, t1 as int);
        lemma_term_bound(w2 as int, t2 as int);
    }
    w0 * (t0 as i128) + w1 * (t1 as i128) + w2 * (t2 as i128)
}

proof fn lemma_term_bound(w: int, t: int)
    requires
        0 <= w <= 0x4_0000_0000_0000_0000,
        -0x8000_0000 <= t <= 0x8000_0000,
    ensures
        -0x2_0000_0000_0000_0000_0000_0000 <= w * t <= 0x2_0000_0000_0000_0000_0000_0000,
{
    assert(-0x2_0000_0000_0000_0000_0000_0000 <= w * t <= 0x2_0000_0000_0000_0000_0000_0000) by (nonlinear_arith)
        requires
            0 <= w <= 0x4_0000_0000_0000_0000,
            -0x8000_0000 <= t <= 0x8000_0000,
    ;
}

fn nearest_texel(num: i128, area: i128, size: usize) -> (r: usize)
    requires
        area > 0,
        size >= 1,
    ensures
        r == texel_axis(num as int, area as int, size as int),
        r < size,
{
    if num <= 0 {
        0
    } else {
        let i = num / area;
        if i >= TEX_ONE as i128 {
            size - 1
        } else {
            proof {
                assert(i * size / (TEX_ONE as int) < size) by (nonlinear_arith)
                    requires
                        0 <= i < TEX_ONE,
                        size >= 1,
                ;
                assert(i * size <= 0x10000 * 0xFFFF_FFFF_FFFF_FFFF) by (nonlinear_arith)
                    requires
                        0 <= i < 0x10000,
                        size <= 0xFFFF_FFFF_FFFF_FFFF,
                ;
            }
            ((i as u128) * (size as u128) / (TEX_ONE as u128)) as usize
        }
    }
}

} // verus!
