use vstd::prelude::*;
use crate::color::{Color, FULL_INTENSITY, packed};
use crate::geometry::{
    ScreenVertex,
    edge_spec,
    Vec3,
    area_spec,
    barycentric,
    covers,
    face_normal,
    signed_area,
    weight0,
    weight1,
    weight2,
};
use crate::shading::{depth_spec, interpolate_depth, shade, shaded_color};
use crate::texture::TextureData;

verus! {

/// Fixed-point depth of NDC depth 1.0: a corner deeper than this lies behind
/// the camera.
pub const DEPTH_ONE: u32 = 0x100_0000;

/// Depth-buffer value after a clear: farther than any depth a triangle can have.
pub const DEPTH_CLEAR: u32 = 0xFFFF_FFFF;

/// Number of entries of an intensity curve.
pub const CURVE_LEN: usize = 256;

/// How a triangle is drawn.
#[derive(Clone, Copy, Debug, PartialEq, Eq, Structural)]
pub enum TriangleShading {
    Points,
    Wireframe,
    Flat,
    Gouraud,
}

/// Why a triangle was not drawn.
#[derive(Clone, Copy, Debug, PartialEq, Eq, Structural)]
pub enum RenderError {
    /// Gouraud shading was asked for a triangle without corner normals.
    MissingNormals,
    /// The triangle's texture does not hold `width * height` RGBA pixels.
    MalformedTexture,
}

/// One triangle as the rasteriser takes it.
#[derive(Clone)]
pub struct TriangleData {
    /// Corners in raster space, counter-clockwise.
    pub position: [ScreenVertex; 3],
    /// The same corners before projection (fixed point), for the flat normal.
    pub world: [Vec3; 3],
    pub texture: Option<TextureData>,
    /// Corner normals (fixed point), for Gouraud shading.
    pub normal: Option<[Vec3; 3]>,
}

/// The color buffer, the depth buffer, and the curve that maps a squared
/// light cosine (in 256 levels) to an intensity level.
pub struct Rasteriser {
    pub width: usize,
    pub height: usize,
    pub buffer: Vec<u32>,
    pub zbuffer: Vec<u32>,
    pub intensity_curve: Vec<u8>,
}

/// Linear index of pixel `(x, y)` (origin bottom left) in memory laid out
/// from the top-left corner.
pub open spec fn coord_spec(width: int, height: int, x: int, y: int) -> int {
    (height - 1 - y) * width + x
}

/// The pixel stored at index `i`: the inverse of `coord_spec`.
pub open spec fn pixel_x(width: int, i: int) -> int {
    i % width
}

pub open spec fn pixel_y(width: int, height: int, i: int) -> int {
    height - 1 - i / width
}

pub open spec fn min3(a: int, b: int, c: int) -> int {
    if a <= b && a <= c {
        a
    } else if b <= c {
        b
    } else {
        c
    }
}

pub open spec fn max3(a: int, b: int, c: int) -> int {
    if a >= b && a >= c {
        a
    } else if b >= c {
        b
    } else {
        c
    }
}

/// Whether any corner lies behind the camera (deeper than `DEPTH_ONE`).
pub open spec fn behind_camera(p: [ScreenVertex; 3]) -> bool {
    p[0].z > DEPTH_ONE || p[1].z > DEPTH_ONE || p[2].z > DEPTH_ONE
}

/// Whether `(x, y)` lies in the bounding box of the corners.
pub open spec fn in_corner_box(p: [ScreenVertex; 3], x: int, y: int) -> bool {
    &&& min3(p[0].x as int, p[1].x as int, p[2].x as int) <= x <= max3(p[0].x as int, p[1].x as int, p[2].x as int)
    &&& min3(p[0].y as int, p[1].y as int, p[2].y as int) <= y <= max3(p[0].y as int, p[1].y as int, p[2].y as int)
}

/// The packed color and the depth that a filled triangle offers pixel
/// `(x, y)`, or `None` when it does not cover the pixel or lighting rejects it.
pub open spec fn fragment(curve: Seq<u8>, tri: TriangleData, mode: TriangleShading, x: int, y: int) -> Option<(int, int)> {
    let p = tri.position;
    if behind_camera(p) || !in_corner_box(p, x, y) || !covers(p[0], p[1], p[2], x, y) {
        None
    } else {
        let w0 = weight0(p[0], p[1], p[2], x, y);
        let w1 = weight1(p[0], p[1], p[2], x, y);
        let w2 = weight2(p[0], p[1], p[2], x, y);
        let a = area_spec(p[0], p[1], p[2]);
        match shaded_color(curve, tri, mode, w0, w1, w2, a) {
            Some(c) => Some((c, depth_spec(p, w0, w1, w2, a))),
            None => None,
        }
    }
}

/// A pixel's color and depth after a fragment meets the depth test: it is
/// written only when strictly nearer than what is stored.
pub open spec fn pixel_after(c: int, z: int, f: Option<(int, int)>) -> (int, int) {
    match f {
        Some(v) => if v.1 < z {
            v
        } else {
            (c, z)
        },
        None => (c, z),
    }
}

/// What filling `tri` does to buffer index `j`.
pub open spec fn filled_at(
    buf: Seq<u32>,
    zbuf: Seq<u32>,
    curve: Seq<u8>,
    width: int,
    height: int,
    tri: TriangleData,
    mode: TriangleShading,
    j: int,
) -> (int, int) {
    pixel_after(
        buf[j] as int,
        zbuf[j] as int,
        fragment(curve, tri, mode, pixel_x(width, j), pixel_y(width, height, j)),
    )
}

/// `post` is `pre` after filling `tri`: every pixel meets its fragment.
pub open spec fn filled(pre: Rasteriser, post: Rasteriser, tri: TriangleData, mode: TriangleShading) -> bool {
    &&& post.width == pre.width
    &&& post.height == pre.height
    &&& post.intensity_curve@ == pre.intensity_curve@
    &&& post.buffer@.len() == pre.buffer@.len()
    &&& post.zbuffer@.len() == pre.zbuffer@.len()
    &&& forall|j: int|
        0 <= j < pre.buffer@.len() ==> (post.buffer@[j] as int, post.zbuffer@[j] as int) == filled_at(
            pre.buffer@,
            pre.zbuffer@,
            pre.intensity_curve@,
            pre.width as int,
            pre.height as int,
            tri,
            mode,
            j,
        )
}

/// Whether `(x, y)` lies in the box spanned by `(x0, y0)` and `(x1, y1)`.
pub open spec fn in_line_box(x0: int, y0: int, x1: int, y1: int, x: int, y: int) -> bool {
    &&& (x0 <= x <= x1 || x1 <= x <= x0)
    &&& (y0 <= y <= y1 || y1 <= y <= y0)
}

pub open spec fn abs(v: int) -> int {
    if v < 0 {
        -v
    } else {
        v
    }
}

/// Bresenham's walk from `(x0, y0)` to `(x1, y1)`: position and error term
/// after `n` steps.
pub open spec fn line_state(x0: int, y0: int, x1: int, y1: int, n: nat) -> (int, int, int)
    decreases n,
{
    let dx = abs(x1 - x0);
    let dy = -abs(y1 - y0);
    if n == 0 {
        (x0, y0, dx + dy)
    } else {
        let st = line_state(x0, y0, x1, y1, (n - 1) as nat);
        let e2 = 2 * st.2;
        let sx = if x0 < x1 { 1int } else { -1int };
        let sy = if y0 < y1 { 1int } else { -1int };
        let (x, err) = if e2 >= dy { (st.0 + sx, st.2 + dy) } else { (st.0, st.2) };
        if e2 <= dx {
            (x, st.1 + sy, err + dx)
        } else {
            (x, st.1, err)
        }
    }
}

/// Buffer index of the pixel that the walk reaches after `n` steps.
pub open spec fn line_index(width: int, height: int, x0: int, y0: int, x1: int, y1: int, n: nat) -> int {
    coord_spec(width, height, line_state(x0, y0, x1, y1, n).0, line_state(x0, y0, x1, y1, n).1)
}

/// Whether the walk reaches the end point after `n` steps.
pub open spec fn line_at_end(x0: int, y0: int, x1: int, y1: int, n: nat) -> bool {
    line_state(x0, y0, x1, y1, n).0 == x1 && line_state(x0, y0, x1, y1, n).1 == y1
}

/// Whether the walk is on the pixel grid after `n` steps.
pub open spec fn line_on_grid(width: int, height: int, x0: int, y0: int, x1: int, y1: int, n: nat) -> bool {
    &&& 0 <= line_state(x0, y0, x1, y1, n).0 < width
    &&& 0 <= line_state(x0, y0, x1, y1, n).1 < height
}

/// Whether index `j` holds one of the first `count` pixels of the walk that
/// lie on the grid.
pub open spec fn on_line(width: int, height: int, x0: int, y0: int, x1: int, y1: int, count: nat, j: int) -> bool {
    exists|m: nat|
        m < count && line_on_grid(width, height, x0, y0, x1, y1, m) && #[trigger] line_index(
            width,
            height,
            x0,
            y0,
            x1,
            y1,
            m,
        ) == j
}

/// The number of steps after which the walk first reaches the end point.
pub open spec fn line_steps(x0: int, y0: int, x1: int, y1: int) -> nat {
    choose|n: nat| line_at_end(x0, y0, x1, y1, n) && forall|m: nat| m < n ==> !#[trigger] line_at_end(x0, y0, x1, y1, m)
}

/// The buffer `pre` after drawing a segment in `color`: exactly the on-grid
/// pixels of the walk, end points included, hold `color`.
pub open spec fn line_buffer(pre: Seq<u32>, width: int, height: int, x0: int, y0: int, x1: int, y1: int, color: u32) -> Seq<u32> {
    Seq::new(
        pre.len(),
        |j: int| if on_line(width, height, x0, y0, x1, y1, line_steps(x0, y0, x1, y1) + 1, j) {
            color
        } else {
            pre[j]
        },
    )
}

/// `post` is `pre` after drawing a segment in `color`: the walk reaches the
/// end point after some number of steps, never leaves the box spanned by the
/// end points, and exactly the pixels it visits on the grid hold `color`.
pub open spec fn line_drawn(
    pre: Seq<u32>,
    post: Seq<u32>,
    width: int,
    height: int,
    x0: int,
    y0: int,
    x1: int,
    y1: int,
    color: u32,
) -> bool {
    &&& post.len() == pre.len()
    &&& exists|steps: nat|
        {
            &&& #[trigger] line_at_end(x0, y0, x1, y1, steps)
            &&& forall|m: nat| m < steps ==> !#[trigger] line_at_end(x0, y0, x1, y1, m)
            &&& forall|m: nat|
                m <= steps ==> in_line_box(
                    x0,
                    y0,
                    x1,
                    y1,
                    #[trigger] line_state(x0, y0, x1, y1, m).0,
                    line_state(x0, y0, x1, y1, m).1,
                )
            &&& forall|j: int|
                0 <= j < pre.len() ==> #[trigger] post[j] == if on_line(width, height, x0, y0, x1, y1, steps + 1, j) {
                    color
                } else {
                    pre[j]
                }
        }
}

/// The walk reaches its end point first after exactly one number of steps.
pub proof fn lemma_first_arrival_unique(x0: int, y0: int, x1: int, y1: int, n: nat)
    requires
        line_at_end(x0, y0, x1, y1, n),
        forall|m: nat| m < n ==> !#[trigger] line_at_end(x0, y0, x1, y1, m),
    ensures
        line_steps(x0, y0, x1, y1) == n,
{
    let s = line_steps(x0, y0, x1, y1);
    assert(line_at_end(x0, y0, x1, y1, s) && forall|m: nat| m < s ==> !#[trigger] line_at_end(x0, y0, x1, y1, m));
    if s < n {
        assert(!line_at_end(x0, y0, x1, y1, s));
    } else if n < s {
        assert(!line_at_end(x0, y0, x1, y1, n));
    }
}

/// Packed white, the color of points and wireframe lines.
pub open spec fn white() -> int {
    packed(FULL_INTENSITY as int, FULL_INTENSITY as int, FULL_INTENSITY as int)
}

/// Whether every corner lies on the pixel grid.
pub open spec fn corners_on_grid(p: [ScreenVertex; 3], width: int, height: int) -> bool {
    &&& 0 <= p[0].x < width && 0 <= p[0].y < height
    &&& 0 <= p[1].x < width && 0 <= p[1].y < height
    &&& 0 <= p[2].x < width && 0 <= p[2].y < height
}

/// The error `draw_triangle` reports for malformed geometry, if any.
pub open spec fn triangle_error(tri: TriangleData, mode: TriangleShading) -> Option<RenderError> {
    if mode == TriangleShading::Gouraud && tri.normal is None {
        Some(RenderError::MissingNormals)
    } else if (mode == TriangleShading::Flat || mode == TriangleShading::Gouraud) && tri.texture is Some
        && !tri.texture->0.wf() {
        Some(RenderError::MalformedTexture)
    } else {
        None
    }
}

/// The buffer after drawing the three corners of `p` as points.
pub open spec fn points_drawn(pre: Seq<u32>, width: int, height: int, p: [ScreenVertex; 3]) -> Seq<u32> {
    if behind_camera(p) || !corners_on_grid(p, width, height) {
        pre
    } else {
        pre.update(coord_spec(width, height, p[0].x as int, p[0].y as int), white() as u32).update(
            coord_spec(width, height, p[1].x as int, p[1].y as int),
            white() as u32,
        ).update(coord_spec(width, height, p[2].x as int, p[2].y as int), white() as u32)
    }
}

/// The buffer `pre` after drawing the three edges of `p` in white.
pub open spec fn wireframe_buffer(pre: Seq<u32>, width: int, height: int, p: [ScreenVertex; 3]) -> Seq<u32> {
    if behind_camera(p) || !corners_on_grid(p, width, height) {
        pre
    } else {
        let b1 = line_buffer(pre, width, height, p[0].x as int, p[0].y as int, p[1].x as int, p[1].y as int, white() as u32);
        let b2 = line_buffer(b1, width, height, p[1].x as int, p[1].y as int, p[2].x as int, p[2].y as int, white() as u32);
        line_buffer(b2, width, height, p[2].x as int, p[2].y as int, p[0].x as int, p[0].y as int, white() as u32)
    }
}

/// The color buffer after drawing the corners (Points) or the edges
/// (Wireframe) of each triangle of `scene` in order, starting from `buf`.
pub open spec fn outline_scene(buf: Seq<u32>, width: int, height: int, scene: Seq<TriangleData>, mode: TriangleShading) -> Seq<u32>
    decreases scene.len(),
{
    if scene.len() == 0 {
        buf
    } else {
        let prev = outline_scene(buf, width, height, scene.drop_last(), mode);
        if mode == TriangleShading::Points {
            points_drawn(prev, width, height, scene.last().position)
        } else {
            wireframe_buffer(prev, width, height, scene.last().position)
        }
    }
}

/// Both buffers after filling each triangle of `scene` in order, starting
/// from `buf` and `zbuf`; a triangle with malformed geometry is skipped.
pub open spec fn fill_scene(
    buf: Seq<u32>,
    zbuf: Seq<u32>,
    curve: Seq<u8>,
    width: int,
    height: int,
    scene: Seq<TriangleData>,
    mode: TriangleShading,
) -> (Seq<u32>, Seq<u32>)
    decreases scene.len(),
{
    if scene.len() == 0 {
        (buf, zbuf)
    } else {
        let prev = fill_scene(buf, zbuf, curve, width, height, scene.drop_last(), mode);
        let t = scene.last();
        if triangle_error(t, mode) is Some {
            prev
        } else {
            (
                Seq::new(prev.0.len(), |j: int| filled_at(prev.0, prev.1, curve, width, height, t, mode, j).0 as u32),
                Seq::new(prev.1.len(), |j: int| filled_at(prev.0, prev.1, curve, width, height, t, mode, j).1 as u32),
            )
        }
    }
}

/// The errors of a scene's triangles, each with the triangle's index, in order.
pub open spec fn scene_errors(scene: Seq<TriangleData>, mode: TriangleShading) -> Seq<(usize, RenderError)>
    decreases scene.len(),
{
    if scene.len() == 0 {
        Seq::empty()
    } else {
        let prev = scene_errors(scene.drop_last(), mode);
        match triangle_error(scene.last(), mode) {
            Some(e) => prev.push(((scene.len() - 1) as usize, e)),
            None => prev,
        }
    }
}

/// Pixel `(px, py)` comes before `(x, y)` in the fill order (rows bottom up,
/// each row left to right).
pub open spec fn done_before(px: int, py: int, x: int, y: int) -> bool {
    py < y || (py == y && px < x)
}

fn min3_exec(a: i32, b: i32, c: i32) -> (r: i64)
    ensures
        r == min3(a as int, b as int, c as int),
{
    if a <= b && a <= c {
        a as i64
    } else if b <= c {
        b as i64
    } else {
        c as i64
    }
}

fn max3_exec(a: i32, b: i32, c: i32) -> (r: i64)
    ensures
        r == max3(a as int, b as int, c as int),
{
    if a >= b && a >= c {
        a as i64
    } else if b >= c {
        b as i64
    } else {
        c as i64
    }
}

impl Rasteriser {
    pub open spec fn wf(&self) -> bool {
        &&& 1 <= self.width
        &&& 1 <= self.height
        &&& self.width * self.height <= usize::MAX
        &&& self.buffer@.len() == self.width * self.height
        &&& self.zbuffer@.len() == self.width * self.height
        &&& self.intensity_curve@.len() == CURVE_LEN
    }

    /// A rasteriser of `width` x `height` pixels, with both buffers cleared.
    pub fn new(width: usize, height: usize, intensity_curve: Vec<u8>) -> (r: Rasteriser)
        requires
            1 <= width,
            1 <= height,
            width * height <= usize::MAX,
            intensity_curve@.len() == CURVE_LEN,
        ensures
            r.wf(),
            r.width == width,
            r.height == height,
            r.intensity_curve@ == intensity_curve@,
            forall|i: int| 0 <= i < width * height ==> r.buffer@[i] == 0,
            forall|i: int| 0 <= i < width * height ==> r.zbuffer@[i] == DEPTH_CLEAR,
    {
        let n = width * height;
        Rasteriser {
            width,
            height,
            buffer: vec![0; n],
            zbuffer: vec![DEPTH_CLEAR; n],
            intensity_curve,
        }
    }

    /// Resets every pixel to black and every depth to `DEPTH_CLEAR`.
    pub fn clear_buffers(&mut self)
        requires
            old(self).wf(),
        ensures
            final(self).wf(),
            final(self).width == old(self).width,
            final(self).height == old(self).height,
            final(self).intensity_curve == old(self).intensity_curve,
            forall|i: int| 0 <= i < final(self).buffer@.len() ==> final(self).buffer@[i] == 0,
            forall|i: int| 0 <= i < final(self).zbuffer@.len() ==> final(self).zbuffer@[i] == DEPTH_CLEAR,
    {
        let n = self.buffer.len();
        let mut i: usize = 0;
        while i < n
            invariant
                self.wf(),
                n == self.buffer@.len(),
                self.width == old(self).width,
                self.height == old(self).height,
                self.intensity_curve == old(self).intensity_curve,
                0 <= i <= n,
                forall|j: int| 0 <= j < i ==> self.buffer@[j] == 0,
                forall|j: int| 0 <= j < i ==> self.zbuffer@[j] == DEPTH_CLEAR,
            decreases n - i,
        {
            self.buffer.set(i, 0);
            self.zbuffer.set(i, DEPTH_CLEAR);
            i = i + 1;
        }
    }

    /// Maps pixel `(x, y)`, origin bottom left, to its index in the buffers.
    pub fn calculate_coord(&self, x: usize, y: usize) -> (r: usize)
        requires
            self.wf(),
            x < self.width,
            y < self.height,
        ensures
            r == coord_spec(self.width as int, self.height as int, x as int, y as int),
            r < self.width * self.height,
    {
        proof {
            lemma_coord_bijection(self.width as int, self.height as int, x as int, y as int);
            assert(y * self.width <= (self.height - 1) * self.width) by (nonlinear_arith)
                requires
                    y < self.height,
            ;
            assert((self.height - 1) * self.width + self.width == self.width * self.height) by (nonlinear_arith);
        }
        (self.width * self.height) - ((self.width - x) + y * self.width)
    }

    /// Writes one packed color at buffer index `coord`.
    pub fn draw_pixel(&mut self, coord: usize, color: u32)
        ensures
            coord < old(self).buffer@.len() ==> final(self).buffer@ == old(self).buffer@.update(coord as int, color),
            coord >= old(self).buffer@.len() ==> final(self).buffer@ == old(self).buffer@,
            final(self).zbuffer == old(self).zbuffer,
            final(self).width == old(self).width,
            final(self).height == old(self).height,
            final(self).intensity_curve == old(self).intensity_curve,
    {
        if coord < self.buffer.len() {
            self.buffer.set(coord, color);
        }
    }

    /// Draws one triangle. Points and Wireframe draw its corners or edges in
    /// white, with no depth test, when every corner lies on the grid. Flat and
    /// Gouraud fill it with depth test and lighting; a triangle that is not
    /// counter-clockwise with positive area leaves the buffers as they were.
    /// A triangle with a corner behind the camera is skipped in every mode.
    /// Malformed geometry is reported and nothing is drawn.
    pub fn draw_triangle(&mut self, tri: &TriangleData, triangle_type: TriangleShading) -> (r: Result<(), RenderError>)
        requires
            old(self).wf(),
        ensures
            final(self).wf(),
            final(self).width == old(self).width,
            final(self).height == old(self).height,
            final(self).intensity_curve == old(self).intensity_curve,
            r is Err <==> triangle_error(*tri, triangle_type) is Some,
            r matches Err(e) ==> triangle_error(*tri, triangle_type) == Some(e),
            r is Err ==> final(self).buffer@ == old(self).buffer@ && final(self).zbuffer@ == old(self).zbuffer@,
            r is Ok && (triangle_type == TriangleShading::Flat || triangle_type == TriangleShading::Gouraud)
                ==> filled(*old(self), *final(self), *tri, triangle_type),
            (triangle_type == TriangleShading::Flat || triangle_type == TriangleShading::Gouraud) && area_spec(
                tri.position[0],
                tri.position[1],
                tri.position[2],
            ) <= 0 ==> final(self).buffer@ == old(self).buffer@ && final(self).zbuffer@ == old(self).zbuffer@,
            triangle_type == TriangleShading::Points ==> final(self).zbuffer == old(self).zbuffer
                && final(self).buffer@ == points_drawn(old(self).buffer@, old(self).width as int, old(self).height as int, tri.position),
            triangle_type == TriangleShading::Wireframe ==> final(self).zbuffer == old(self).zbuffer
                && final(self).buffer@ == wireframe_buffer(old(self).buffer@, old(self).width as int, old(self).height as int, tri.position),
    {
        let p = tri.position;
        match triangle_type {
            TriangleShading::Points | TriangleShading::Wireframe => {
                if p[0].z > DEPTH_ONE || p[1].z > DEPTH_ONE || p[2].z > DEPTH_ONE {
                    return Ok(());
                }
                if !self.on_grid(p[0]) || !self.on_grid(p[1]) || !self.on_grid(p[2]) {
                    return Ok(());
                }
                let white_px = Color::new_from_rgb(FULL_INTENSITY, FULL_INTENSITY, FULL_INTENSITY).get_pixel_color();
                let (x0, y0) = (p[0].x as usize, p[0].y as usize);
                let (x1, y1) = (p[1].x as usize, p[1].y as usize);
                let (x2, y2) = (p[2].x as usize, p[2].y as usize);
                if triangle_type == TriangleShading::Points {
                    let c0 = self.calculate_coord(x0, y0);
                    self.draw_pixel(c0, white_px);
                    let c1 = self.calculate_coord(x1, y1);
                    self.draw_pixel(c1, white_px);
                    let c2 = self.calculate_coord(x2, y2);
                    self.draw_pixel(c2, white_px);
                } else {
                    self.draw_line(x0, y0, x1, y1, white_px);
                    self.draw_line(x1, y1, x2, y2, white_px);
                    self.draw_line(x2, y2, x0, y0, white_px);
                    proof {
                        assert(white_px == white() as u32);
                    }
                }
                Ok(())
            },
            TriangleShading::Flat | TriangleShading::Gouraud => {
                if triangle_type == TriangleShading::Gouraud && tri.normal.is_none() {
                    return Err(RenderError::MissingNormals);
                }
                match &tri.texture {
                    Some(t) => {
                        if !t.is_well_formed() {
                            return Err(RenderError::MalformedTexture);
                        }
                    },
                    None => {},
                }
                let ghost pre_buf = self.buffer@;
                let ghost pre_z = self.zbuffer@;
                let ghost curve = self.intensity_curve@;
                self.fill_triangle(tri, triangle_type);
                proof {
                    if area_spec(p[0], p[1], p[2]) <= 0 {
                        let w = self.width as int;
                        let h = self.height as int;
                        assert forall|j: int| 0 <= j < pre_buf.len() implies self.buffer@[j] == pre_buf[j]
                            && self.zbuffer@[j] == pre_z[j] by {
                            assert(!covers(p[0], p[1], p[2], pixel_x(w, j), pixel_y(w, h, j)));
                            assert(fragment(curve, *tri, triangle_type, pixel_x(w, j), pixel_y(w, h, j)) is None);
                            assert(filled_at(pre_buf, pre_z, curve, w, h, *tri, triangle_type, j) == (
                                pre_buf[j] as int,
                                pre_z[j] as int,
                            ));
                        }
                        assert(self.buffer@ =~= pre_buf);
                        assert(self.zbuffer@ =~= pre_z);
                    }
                }
                Ok(())
            },
        }
    }

    fn on_grid(&self, v: ScreenVertex) -> (b: bool)
        ensures
            b == (0 <= v.x < self.width && 0 <= v.y < self.height),
    {
        v.x >= 0 && v.y >= 0 && (v.x as usize) < self.width && (v.y as usize) < self.height
    }

    /// Renders one frame: clears both buffers, then draws every triangle of
    /// `scene` in order. A triangle with malformed geometry is skipped and its
    /// index and error are reported; the rest of the scene is still drawn.
    pub fn render_frame(&mut self, scene: &Vec<TriangleData>, shading: TriangleShading) -> (errors: Vec<(usize, RenderError)>)
        requires
            old(self).wf(),
        ensures
            final(self).wf(),
            final(self).width == old(self).width,
            final(self).height == old(self).height,
            final(self).intensity_curve == old(self).intensity_curve,
            errors@ == scene_errors(scene@, shading),
            shading == TriangleShading::Points || shading == TriangleShading::Wireframe ==> forall|j: int|
                0 <= j < final(self).zbuffer@.len() ==> final(self).zbuffer@[j] == DEPTH_CLEAR,
            shading == TriangleShading::Points || shading == TriangleShading::Wireframe ==> final(self).buffer@
                == outline_scene(
                Seq::new(old(self).buffer@.len(), |j: int| 0u32),
                old(self).width as int,
                old(self).height as int,
                scene@,
                shading,
            ),
            shading == TriangleShading::Flat || shading == TriangleShading::Gouraud ==> (
            final(self).buffer@,
            final(self).zbuffer@,
            ) == fill_scene(
                Seq::new(old(self).buffer@.len(), |j: int| 0u32),
                Seq::new(old(self).zbuffer@.len(), |j: int| DEPTH_CLEAR),
                old(self).intensity_curve@,
                old(self).width as int,
                old(self).height as int,
                scene@,
                shading,
            ),
    {
        self.clear_buffers();
        let ghost zeros = Seq::new(self.buffer@.len(), |j: int| 0u32);
        let ghost clears = Seq::new(self.zbuffer@.len(), |j: int| DEPTH_CLEAR);
        proof {
            assert(self.buffer@ =~= zeros);
            assert(self.zbuffer@ =~= clears);
            assert(scene@.take(0) =~= Seq::<TriangleData>::empty());
        }
        let ghost curve = self.intensity_curve@;
        let ghost w = self.width as int;
        let ghost h = self.height as int;
        let mut errors: Vec<(usize, RenderError)> = Vec::new();
        let mut k: usize = 0;
        while k < scene.len()
            invariant
                self.wf(),
                self.width == old(self).width,
                self.height == old(self).height,
                self.intensity_curve == old(self).intensity_curve,
                curve == self.intensity_curve@,
                w == self.width,
                h == self.height,
                zeros.len() == old(self).buffer@.len(),
                clears.len() == old(self).zbuffer@.len(),
                zeros == Seq::new(old(self).buffer@.len(), |j: int| 0u32),
                clears == Seq::new(old(self).zbuffer@.len(), |j: int| DEPTH_CLEAR),
                0 <= k <= scene@.len(),
                errors@ == scene_errors(scene@.take(k as int), shading),
                shading == TriangleShading::Points || shading == TriangleShading::Wireframe ==> self.zbuffer@ == clears,
                shading == TriangleShading::Points || shading == TriangleShading::Wireframe ==> self.buffer@
                    == outline_scene(zeros, w, h, scene@.take(k as int), shading),
                shading == TriangleShading::Flat || shading == TriangleShading::Gouraud ==> (
                self.buffer@,
                self.zbuffer@,
                ) == fill_scene(zeros, clears, curve, w, h, scene@.take(k as int), shading),
            decreases scene@.len() - k,
        {
            let ghost pre = *self;
            let r = self.draw_triangle(&scene[k], shading);
            proof {
                let s1 = scene@.take(k + 1);
                assert(s1.drop_last() =~= scene@.take(k as int));
                assert(s1.last() == scene@[k as int]);
                if shading == TriangleShading::Flat || shading == TriangleShading::Gouraud {
                    if r is Ok {
                        let prev = fill_scene(zeros, clears, curve, w, h, scene@.take(k as int), shading);
                        let t = scene@[k as int];
                        assert(self.buffer@ =~= Seq::new(prev.0.len(), |j: int| filled_at(prev.0, prev.1, curve, w, h, t, shading, j).0 as u32));
                        assert(self.zbuffer@ =~= Seq::new(prev.1.len(), |j: int| filled_at(prev.0, prev.1, curve, w, h, t, shading, j).1 as u32));
                    }
                }
            }
            match r {
                Ok(()) => {},
                Err(e) => {
                    errors.push((k, e));
                },
            }
            k = k + 1;
        }
        proof {
            assert(scene@.take(scene@.len() as int) =~= scene@);
        }
        errors
    }

    /// Draws the segment from `(x0, y0)` to `(x1, y1)` with Bresenham's
    /// integer algorithm: exactly the pixels of the walk, both end points
    /// included, are written, as far as they lie on the grid; the rest of the
    /// walk is clipped.
    pub fn draw_line(&mut self, x0: usize, y0: usize, x1: usize, y1: usize, color: u32)
        requires
            old(self).wf(),
        ensures
            final(self).wf(),
            final(self).width == old(self).width,
            final(self).height == old(self).height,
            final(self).intensity_curve == old(self).intensity_curve,
            final(self).zbuffer == old(self).zbuffer,
            line_drawn(old(self).buffer@, final(self).buffer@, old(self).width as int, old(self).height as int, x0 as int, y0 as int, x1 as int, y1 as int, color),
            final(self).buffer@ == line_buffer(old(self).buffer@, old(self).width as int, old(self).height as int, x0 as int, y0 as int, x1 as int, y1 as int, color),
            line_steps(x0 as int, y0 as int, x1 as int, y1 as int) == if abs(x1 - x0) >= abs(y1 - y0) {
                abs(x1 - x0)
            } else {
                abs(y1 - y0)
            },
    {
        let ghost w = self.width as int;
        let ghost h = self.height as int;
        let ghost pre = self.buffer@;
        let ghost (gx0, gy0, gx1, gy1) = (x0 as int, y0 as int, x1 as int, y1 as int);
        let right = x0 < x1;
        let up = y0 < y1;
        let ax: i128 = if right { (x1 - x0) as i128 } else { (x0 - x1) as i128 };
        let ay: i128 = if up { (y1 - y0) as i128 } else { (y0 - y1) as i128 };
        let dx = ax;
        let dy = -ay;
        let mut err: i128 = dx + dy;
        let mut x = x0;
        let mut y = y0;
        let ghost mut kx: int = 0;
        let ghost mut ky: int = 0;
        let ghost mut n: nat = 0;
        proof {
            assert(ax * (1 + ky) == ax && ay * (1 + kx) == ay) by (nonlinear_arith)
                requires
                    kx == 0,
                    ky == 0,
            ;
            assert(self.buffer@ =~= Seq::new(pre.len(), |j: int| if on_line(w, h, gx0, gy0, gx1, gy1, 0, j) { color } else { pre[j] }));
        }
        loop
            invariant_except_break
                self.buffer@ == Seq::new(pre.len(), |j: int| if on_line(w, h, gx0, gy0, gx1, gy1, n, j) { color } else { pre[j] }),
            invariant
                self.wf(),
                self.width == old(self).width,
                self.height == old(self).height,
                self.intensity_curve == old(self).intensity_curve,
                self.zbuffer == old(self).zbuffer,
                w == self.width,
                h == self.height,
                pre == old(self).buffer@,
                pre.len() == w * h,
                gx0 == x0 && gy0 == y0 && gx1 == x1 && gy1 == y1,
                0 <= ax <= usize::MAX,
                0 <= ay <= usize::MAX,
                dx == ax,
                dy == -ay,
                ax == abs(gx1 - gx0),
                ay == abs(gy1 - gy0),
                right == (x0 < x1),
                up == (y0 < y1),
                0 <= kx <= ax,
                0 <= ky <= ay,
                right ==> x == x0 + kx,
                !right ==> x == x0 - kx,
                up ==> y == y0 + ky,
                !up ==> y == y0 - ky,
                err == ax * (1 + ky) - ay * (1 + kx),
                -2 * ay <= err <= 2 * ax,
                ax >= ay ==> kx == n && -ay <= 2 * err,
                ay >= ax ==> ky == n && 2 * err <= ax,
                line_state(gx0, gy0, gx1, gy1, n) == (x as int, y as int, err as int),
                forall|m: nat| m < n ==> !#[trigger] line_at_end(gx0, gy0, gx1, gy1, m),
                forall|m: nat|
                    m <= n ==> in_line_box(
                        gx0,
                        gy0,
                        gx1,
                        gy1,
                        #[trigger] line_state(gx0, gy0, gx1, gy1, m).0,
                        line_state(gx0, gy0, gx1, gy1, m).1,
                    ),
            ensures
                line_at_end(gx0, gy0, gx1, gy1, n),
                n == if ax >= ay { ax } else { ay },
                forall|m: nat| m < n ==> !#[trigger] line_at_end(gx0, gy0, gx1, gy1, m),
                forall|m: nat|
                    m <= n ==> in_line_box(
                        gx0,
                        gy0,
                        gx1,
                        gy1,
                        #[trigger] line_state(gx0, gy0, gx1, gy1, m).0,
                        line_state(gx0, gy0, gx1, gy1, m).1,
                    ),
                self.buffer@ == Seq::new(pre.len(), |j: int| if on_line(w, h, gx0, gy0, gx1, gy1, n + 1, j) { color } else { pre[j] }),
                self.wf(),
                self.width == old(self).width,
                self.height == old(self).height,
                self.intensity_curve == old(self).intensity_curve,
                self.zbuffer == old(self).zbuffer,
            decreases (ax - kx) + (ay - ky),
        {
            let ghost before = self.buffer@;
            if x < self.width && y < self.height {
                let c = self.calculate_coord(x, y);
                proof {
                    lemma_coord_bijection(w, h, x as int, y as int);
                }
                self.draw_pixel(c, color);
                proof {
                    assert(line_on_grid(w, h, gx0, gy0, gx1, gy1, n));
                    assert(line_index(w, h, gx0, gy0, gx1, gy1, n) == c);
                    assert forall|j: int| 0 <= j < pre.len() implies on_line(w, h, gx0, gy0, gx1, gy1, n + 1, j) == (on_line(
                        w,
                        h,
                        gx0,
                        gy0,
                        gx1,
                        gy1,
                        n,
                        j,
                    ) || j == c) by {
                        if on_line(w, h, gx0, gy0, gx1, gy1, n + 1, j) && j != c {
                            let m = choose|m: nat| m < n + 1 && line_on_grid(w, h, gx0, gy0, gx1, gy1, m) && #[trigger] line_index(w, h, gx0, gy0, gx1, gy1, m) == j;
                            assert(m < n);
                        }
                        if on_line(w, h, gx0, gy0, gx1, gy1, n, j) {
                            let m = choose|m: nat| m < n && line_on_grid(w, h, gx0, gy0, gx1, gy1, m) && #[trigger] line_index(w, h, gx0, gy0, gx1, gy1, m) == j;
                            assert(m < n + 1);
                        }
                        if j == c {
                            assert(line_index(w, h, gx0, gy0, gx1, gy1, n) == j);
                        }
                    }
                    assert(self.buffer@ =~= Seq::new(pre.len(), |j: int| if on_line(w, h, gx0, gy0, gx1, gy1, n + 1, j) { color } else { pre[j] }));
                }
            } else {
                proof {
                    assert(!line_on_grid(w, h, gx0, gy0, gx1, gy1, n));
                    assert forall|j: int| 0 <= j < pre.len() implies on_line(w, h, gx0, gy0, gx1, gy1, n + 1, j) == on_line(
                        w,
                        h,
                        gx0,
                        gy0,
                        gx1,
                        gy1,
                        n,
                        j,
                    ) by {
                        if on_line(w, h, gx0, gy0, gx1, gy1, n + 1, j) {
                            let m = choose|m: nat| m < n + 1 && line_on_grid(w, h, gx0, gy0, gx1, gy1, m) && #[trigger] line_index(w, h, gx0, gy0, gx1, gy1, m) == j;
                            assert(m < n);
                        }
                        if on_line(w, h, gx0, gy0, gx1, gy1, n, j) {
                            let m = choose|m: nat| m < n && line_on_grid(w, h, gx0, gy0, gx1, gy1, m) && #[trigger] line_index(w, h, gx0, gy0, gx1, gy1, m) == j;
                            assert(m < n + 1);
                        }
                    }
                    assert(self.buffer@ =~= Seq::new(pre.len(), |j: int| if on_line(w, h, gx0, gy0, gx1, gy1, n + 1, j) { color } else { pre[j] }));
                }
            }
            if x == x1 && y == y1 {
                break;
            }
            proof {
                if kx == ax {
                    assert(ax * (1 + ky) <= ax * ay) by (nonlinear_arith)
                        requires
                            0 <= ky <= ay - 1,
                            ax >= 0,
                    ;
                    assert(ay * (1 + ax) == ay + ax * ay) by (nonlinear_arith);
                }
                if ky == ay {
                    assert(ay * (1 + kx) <= ay * ax) by (nonlinear_arith)
                        requires
                            0 <= kx <= ax - 1,
                            ay >= 0,
                    ;
                    assert(ax * (1 + ay) == ax + ax * ay) by (nonlinear_arith);
                }
                assert(!line_at_end(gx0, gy0, gx1, gy1, n));
            }
            let e2 = err * 2;
            if e2 >= dy {
                proof {
                    assert(ay * (1 + (kx + 1)) == ay * (1 + kx) + ay) by (nonlinear_arith);
                    kx = kx + 1;
                }
                err = err + dy;
                x = if right { x + 1 } else { x - 1 };
            }
            if e2 <= dx {
                proof {
                    assert(ax * (1 + (ky + 1)) == ax * (1 + ky) + ax) by (nonlinear_arith);
                    ky = ky + 1;
                }
                err = err + dx;
                y = if up { y + 1 } else { y - 1 };
            }
            proof {
                n = n + 1;
                assert(line_state(gx0, gy0, gx1, gy1, n) == (x as int, y as int, err as int));
                assert(in_line_box(gx0, gy0, gx1, gy1, line_state(gx0, gy0, gx1, gy1, n).0, line_state(gx0, gy0, gx1, gy1, n).1));
            }
        }
        proof {
            assert(line_at_end(gx0, gy0, gx1, gy1, n));
            lemma_first_arrival_unique(gx0, gy0, gx1, gy1, n);
            assert(self.buffer@ =~= line_buffer(pre, w, h, gx0, gy0, gx1, gy1, color));
        }
    }

    /// Scan-converts `tri` over the pixels of its clamped bounding box and
    /// writes each covered pixel that lighting keeps and the depth test lets
    /// through, updating its depth.
    fn fill_triangle(&mut self, tri: &TriangleData, mode: TriangleShading)
        requires
            old(self).wf(),
            tri.texture is Some ==> tri.texture->0.wf(),
        ensures
            final(self).wf(),
            final(self).width == old(self).width,
            final(self).height == old(self).height,
            final(self).intensity_curve == old(self).intensity_curve,
            filled(*old(self), *final(self), *tri, mode),
    {
        let ghost pre_buf = self.buffer@;
        let ghost pre_z = self.zbuffer@;
        let ghost curve = self.intensity_curve@;
        let ghost w = self.width as int;
        let ghost h = self.height as int;
        let p = tri.position;
        if p[0].z > DEPTH_ONE || p[1].z > DEPTH_ONE || p[2].z > DEPTH_ONE {
            return;
        }
        let area = signed_area(p[0], p[1], p[2]);
        if area <= 0 {
            return;
        }
        let flat = face_normal(tri.world);
        let lo_x = min3_exec(p[0].x, p[1].x, p[2].x);
        let lo_y = min3_exec(p[0].y, p[1].y, p[2].y);
        let hi_x = max3_exec(p[0].x, p[1].x, p[2].x);
        let hi_y = max3_exec(p[0].y, p[1].y, p[2].y);
        let min_x: i64 = if lo_x < 0 { 0 } else { lo_x };
        let min_y: i64 = if lo_y < 0 { 0 } else { lo_y };
        let max_x: i64 = if hi_x as i128 > (self.width - 1) as i128 { (self.width - 1) as i64 } else { hi_x };
        let max_y: i64 = if hi_y as i128 > (self.height - 1) as i128 { (self.height - 1) as i64 } else { hi_y };
        let n = self.buffer.len();
        let mut y: i64 = min_y;
        proof {
            assert forall|j: int| 0 <= j < n && pixel_y(w, h, j) < y implies filled_at(
                pre_buf,
                pre_z,
                curve,
                w,
                h,
                *tri,
                mode,
                j,
            ) == (pre_buf[j] as int, pre_z[j] as int) by {
                lemma_index_pixel(w, h, j);
            }
        }
        while y <= max_y
            invariant
                self.wf(),
                self.width == old(self).width,
                self.height == old(self).height,
                self.intensity_curve == old(self).intensity_curve,
                curve == self.intensity_curve@,
                w == self.width,
                h == self.height,
                n == self.buffer@.len(),
                pre_buf.len() == n,
                pre_z.len() == n,
                pre_buf == old(self).buffer@,
                pre_z == old(self).zbuffer@,
                area == area_spec(p[0], p[1], p[2]),
                area > 0,
                area <= crate::shading::WEIGHT_BOUND,
                p == tri.position,
                !behind_camera(p),
                (flat.0 as int, flat.1 as int, flat.2 as int) == crate::geometry::face_normal_spec(tri.world),
                -0x2_0000_0000 <= flat.0 <= 0x2_0000_0000,
                -0x2_0000_0000 <= flat.1 <= 0x2_0000_0000,
                -0x2_0000_0000 <= flat.2 <= 0x2_0000_0000,
                tri.texture is Some ==> tri.texture->0.wf(),
                min_x == if lo_x < 0 { 0 } else { lo_x },
                max_x == if hi_x > w - 1 { w - 1 } else { hi_x as int },
                min_y == if lo_y < 0 { 0 } else { lo_y },
                max_y == if hi_y > h - 1 { h - 1 } else { hi_y as int },
                lo_x == min3(p[0].x as int, p[1].x as int, p[2].x as int),
                hi_x == max3(p[0].x as int, p[1].x as int, p[2].x as int),
                lo_y == min3(p[0].y as int, p[1].y as int, p[2].y as int),
                hi_y == max3(p[0].y as int, p[1].y as int, p[2].y as int),
                min_y <= y,
                y <= max_y + 1 || y == min_y,
                forall|j: int|
                    0 <= j < n ==> (self.buffer@[j] as int, self.zbuffer@[j] as int) == if pixel_y(w, h, j)
                        < y {
                        filled_at(pre_buf, pre_z, curve, w, h, *tri, mode, j)
                    } else {
                        (pre_buf[j] as int, pre_z[j] as int)
                    },
            decreases max_y + 1 - y,
        {
            let mut x: i64 = min_x;
            proof {
                assert forall|j: int| 0 <= j < n && pixel_y(w, h, j) == y && pixel_x(w, j) < x
                    implies filled_at(pre_buf, pre_z, curve, w, h, *tri, mode, j) == (
                    pre_buf[j] as int,
                    pre_z[j] as int,
                ) by {
                    lemma_index_pixel(w, h, j);
                }
            }
            while x <= max_x
                invariant
                    self.wf(),
                    self.width == old(self).width,
                    self.height == old(self).height,
                    self.intensity_curve == old(self).intensity_curve,
                    curve == self.intensity_curve@,
                    w == self.width,
                    h == self.height,
                    n == self.buffer@.len(),
                    pre_buf.len() == n,
                    pre_z.len() == n,
                    area == area_spec(p[0], p[1], p[2]),
                    area > 0,
                    area <= crate::shading::WEIGHT_BOUND,
                area <= crate::shading::WEIGHT_BOUND,
                    p == tri.position,
                    !behind_camera(p),
                    (flat.0 as int, flat.1 as int, flat.2 as int) == crate::geometry::face_normal_spec(tri.world),
                    -0x2_0000_0000 <= flat.0 <= 0x2_0000_0000,
                    -0x2_0000_0000 <= flat.1 <= 0x2_0000_0000,
                    -0x2_0000_0000 <= flat.2 <= 0x2_0000_0000,
                    tri.texture is Some ==> tri.texture->0.wf(),
                    min_x == if lo_x < 0 { 0 } else { lo_x },
                    max_x == if hi_x > w - 1 { w - 1 } else { hi_x as int },
                    min_y == if lo_y < 0 { 0 } else { lo_y },
                    max_y == if hi_y > h - 1 { h - 1 } else { hi_y as int },
                    lo_x == min3(p[0].x as int, p[1].x as int, p[2].x as int),
                    hi_x == max3(p[0].x as int, p[1].x as int, p[2].x as int),
                    lo_y == min3(p[0].y as int, p[1].y as int, p[2].y as int),
                    hi_y == max3(p[0].y as int, p[1].y as int, p[2].y as int),
                    min_y <= y <= max_y,
                    min_x <= x,
                    x <= max_x + 1 || x == min_x,
                    forall|j: int|
                        0 <= j < n ==> (self.buffer@[j] as int, self.zbuffer@[j] as int) == if done_before(
                            pixel_x(w, j),
                            pixel_y(w, h, j),
                            x as int,
                            y as int,
                        ) {
                            filled_at(pre_buf, pre_z, curve, w, h, *tri, mode, j)
                        } else {
                            (pre_buf[j] as int, pre_z[j] as int)
                        },
                decreases max_x + 1 - x,
            {
                let i = self.calculate_coord(x as usize, y as usize);
                proof {
                    lemma_coord_bijection(w, h, x as int, y as int);
                }
                let ghost before_buf = self.buffer@;
                let ghost before_z = self.zbuffer@;
                let (w0, w1, w2) = barycentric(p[0], p[1], p[2], x as i32, y as i32);
                if w0 >= 0 && w1 >= 0 && w2 >= 0 {
                    match shade(&self.intensity_curve, tri, mode, flat, w0, w1, w2, area) {
                        Some(c) => {
                            let d = interpolate_depth(&tri.position, w0, w1, w2, area);
                            if d < self.zbuffer[i] {
                                self.zbuffer.set(i, d);
                                self.buffer.set(i, c);
                            }
                        },
                        None => {},
                    }
                }
                proof {
                    assert(fragment(curve, *tri, mode, x as int, y as int) == if w0 >= 0 && w1 >= 0 && w2
                        >= 0 {
                        match shaded_color(curve, *tri, mode, w0 as int, w1 as int, w2 as int, area as int) {
                            Some(c) => Some((c, depth_spec(p, w0 as int, w1 as int, w2 as int, area as int))),
                            None => None,
                        }
                    } else {
                        None
                    });
                    assert forall|j: int| 0 <= j < n implies (self.buffer@[j] as int, self.zbuffer@[j] as int)
                        == if done_before(pixel_x(w, j), pixel_y(w, h, j), x + 1, y as int) {
                        filled_at(pre_buf, pre_z, curve, w, h, *tri, mode, j)
                    } else {
                        (pre_buf[j] as int, pre_z[j] as int)
                    } by {
                        lemma_index_pixel(w, h, j);
                        if j != i {
                            assert(pixel_x(w, j) != x || pixel_y(w, h, j) != y);
                        }
                    }
                }
                x = x + 1;
            }
            proof {
                assert forall|j: int| 0 <= j < n && pixel_y(w, h, j) == y && pixel_x(w, j) > max_x
                    implies filled_at(pre_buf, pre_z, curve, w, h, *tri, mode, j) == (
                    pre_buf[j] as int,
                    pre_z[j] as int,
                ) by {
                    lemma_index_pixel(w, h, j);
                }
            }
            y = y + 1;
        }
        proof {
            assert forall|j: int| 0 <= j < n && pixel_y(w, h, j) > max_y implies filled_at(
                pre_buf,
                pre_z,
                curve,
                w,
                h,
                *tri,
                mode,
                j,
            ) == (pre_buf[j] as int, pre_z[j] as int) by {
                lemma_index_pixel(w, h, j);
            }
        }
    }
}

/// The coordinate mapping sends every pixel of a `width` x `height` grid to an
/// index in `[0, width * height)`, and it is a bijection: each pixel is sent
/// to a distinct index, and every index is the image of the pixel
/// `(pixel_x, pixel_y)`.
pub proof fn lemma_coord_bijection(width: int, height: int, x: int, y: int)
    requires
        width >= 1,
        height >= 1,
        0 <= x < width,
        0 <= y < height,
    ensures
        0 <= coord_spec(width, height, x, y) < width * height,
        coord_spec(width, height, x, y) == width * height - ((width - x) + y * width),
        pixel_x(width, coord_spec(width, height, x, y)) == x,
        pixel_y(width, height, coord_spec(width, height, x, y)) == y,
        forall|x2: int, y2: int|
            0 <= x2 < width && 0 <= y2 < height && coord_spec(width, height, x2, y2)
                == coord_spec(width, height, x, y) ==> x2 == x && y2 == y,
{
    let r = height - 1 - y;
    assert(0 <= r * width <= (height - 1) * width) by (nonlinear_arith)
        requires
            0 <= r <= height - 1,
            width >= 1,
    ;
    assert((height - 1) * width + width == width * height) by (nonlinear_arith);
    assert(coord_spec(width, height, x, y) == width * height - ((width - x) + y * width)) by (nonlinear_arith);
    vstd::arithmetic::div_mod::lemma_fundamental_div_mod_converse(
        coord_spec(width, height, x, y),
        width,
        r,
        x,
    );
    assert forall|x2: int, y2: int|
        0 <= x2 < width && 0 <= y2 < height && coord_spec(width, height, x2, y2) == coord_spec(
            width,
            height,
            x,
            y,
        ) implies x2 == x && y2 == y by {
        vstd::arithmetic::div_mod::lemma_fundamental_div_mod_converse(
            coord_spec(width, height, x2, y2),
            width,
            height - 1 - y2,
            x2,
        );
    }
}

/// Every index of a `width` x `height` buffer holds a pixel of the grid, and
/// mapping that pixel back gives the index.
pub proof fn lemma_index_pixel(width: int, height: int, i: int)
    requires
        width >= 1,
        height >= 1,
        0 <= i < width * height,
    ensures
        0 <= pixel_x(width, i) < width,
        0 <= pixel_y(width, height, i) < height,
        coord_spec(width, height, pixel_x(width, i), pixel_y(width, height, i)) == i,
{
    vstd::arithmetic::div_mod::lemma_fundamental_div_mod(i, width);
    vstd::arithmetic::div_mod::lemma_div_pos_is_pos(i, width);
    vstd::arithmetic::div_mod::lemma_div_is_ordered(i, width * height, width);
    vstd::arithmetic::div_mod::lemma_div_by_multiple(height, width);
    assert(width * height == height * width) by (nonlinear_arith);
    if i / width == height {
        assert(width * (i / width) + i % width >= width * height) by (nonlinear_arith)
            requires
                i / width == height,
                i % width >= 0,
        ;
    }
    assert((i / width) * width == width * (i / width)) by (nonlinear_arith);
}

proof fn lemma_combination_between(s: int, p: int, k0: int, k1: int, k2: int, a: int, b: int, c: int)
    requires
        k0 > 0,
        k1 > 0,
        k2 > 0,
        s == k0 + k1 + k2,
        s * p == k0 * a + k1 * b + k2 * c,
    ensures
        min3(a, b, c) <= p <= max3(a, b, c),
{
    let lo = min3(a, b, c);
    let hi = max3(a, b, c);
    assert(s * lo <= k0 * a + k1 * b + k2 * c) by (nonlinear_arith)
        requires
            k0 > 0,
            k1 > 0,
            k2 > 0,
            s == k0 + k1 + k2,
            lo <= a,
            lo <= b,
            lo <= c,
    ;
    assert(k0 * a + k1 * b + k2 * c <= s * hi) by (nonlinear_arith)
        requires
            k0 > 0,
            k1 > 0,
            k2 > 0,
            s == k0 + k1 + k2,
            a <= hi,
            b <= hi,
            c <= hi,
    ;
    assert(lo <= p <= hi) by (nonlinear_arith)
        requires
            s > 0,
            s * lo <= s * p,
            s * p <= s * hi,
    ;
}

/// A pixel whose centre lies strictly inside a counter-clockwise triangle
/// that is not behind the camera is covered by the fill: its fragment is the
/// shaded color at its weights and the interpolated depth, and only lighting
/// and the depth test decide whether it is written. "Strictly inside" is given
/// by positive integer coefficients `k0, k1, k2` with
/// `(k0 + k1 + k2) * p == k0 * v0 + k1 * v1 + k2 * v2`.
pub proof fn lemma_interior_pixel_filled(
    curve: Seq<u8>,
    tri: TriangleData,
    mode: TriangleShading,
    x: int,
    y: int,
    k0: int,
    k1: int,
    k2: int,
)
    requires
        area_spec(tri.position[0], tri.position[1], tri.position[2]) > 0,
        !behind_camera(tri.position),
        k0 > 0,
        k1 > 0,
        k2 > 0,
        (k0 + k1 + k2) * x == k0 * tri.position[0].x + k1 * tri.position[1].x + k2 * tri.position[2].x,
        (k0 + k1 + k2) * y == k0 * tri.position[0].y + k1 * tri.position[1].y + k2 * tri.position[2].y,
    ensures
        fragment(curve, tri, mode, x, y) == ({
            let p = tri.position;
            let w0 = weight0(p[0], p[1], p[2], x, y);
            let w1 = weight1(p[0], p[1], p[2], x, y);
            let w2 = weight2(p[0], p[1], p[2], x, y);
            let a = area_spec(p[0], p[1], p[2]);
            match shaded_color(curve, tri, mode, w0, w1, w2, a) {
                Some(c) => Some((c, depth_spec(p, w0, w1, w2, a))),
                None => None,
            }
        }),
{
    let p = tri.position;
    crate::geometry::lemma_interior_pixel_covered(p[0], p[1], p[2], x, y, k0, k1, k2);
    lemma_combination_between(k0 + k1 + k2, x, k0, k1, k2, p[0].x as int, p[1].x as int, p[2].x as int);
    lemma_combination_between(k0 + k1 + k2, y, k0, k1, k2, p[0].y as int, p[1].y as int, p[2].y as int);
}

/// Interpolated depth lies between the nearest and the farthest corner depth.
pub proof fn lemma_depth_between(p: [ScreenVertex; 3], w0: int, w1: int, w2: int, a: int)
    requires
        0 <= w0,
        0 <= w1,
        0 <= w2,
        w0 + w1 + w2 == a,
        a > 0,
    ensures
        min3(p[0].z as int, p[1].z as int, p[2].z as int) <= depth_spec(p, w0, w1, w2, a),
        depth_spec(p, w0, w1, w2, a) <= max3(p[0].z as int, p[1].z as int, p[2].z as int),
{
    let (z0, z1, z2) = (p[0].z as int, p[1].z as int, p[2].z as int);
    let lo = min3(z0, z1, z2);
    let hi = max3(z0, z1, z2);
    let sum = w0 * z0 + w1 * z1 + w2 * z2;
    assert(a * lo <= sum <= a * hi) by (nonlinear_arith)
        requires
            0 <= w0,
            0 <= w1,
            0 <= w2,
            w0 + w1 + w2 == a,
            lo <= z0 <= hi,
            lo <= z1 <= hi,
            lo <= z2 <= hi,
            sum == w0 * z0 + w1 * z1 + w2 * z2,
    ;
    assert(a * lo == lo * a && a * hi == hi * a) by (nonlinear_arith);
    vstd::arithmetic::div_mod::lemma_div_is_ordered(lo * a, sum, a);
    vstd::arithmetic::div_mod::lemma_div_is_ordered(sum, hi * a, a);
    vstd::arithmetic::div_mod::lemma_div_by_multiple(lo, a);
    vstd::arithmetic::div_mod::lemma_div_by_multiple(hi, a);
}

/// A fragment lies no deeper than `DEPTH_ONE`, so it is always nearer than a
/// cleared depth.
pub proof fn lemma_fragment_depth(curve: Seq<u8>, tri: TriangleData, mode: TriangleShading, x: int, y: int)
    requires
        fragment(curve, tri, mode, x, y) is Some,
    ensures
        (fragment(curve, tri, mode, x, y)->0).1 <= DEPTH_ONE,
        (fragment(curve, tri, mode, x, y)->0).1 < DEPTH_CLEAR,
{
    let p = tri.position;
    crate::geometry::lemma_weights_sum(p[0], p[1], p[2], x, y);
    lemma_depth_between(
        p,
        weight0(p[0], p[1], p[2], x, y),
        weight1(p[0], p[1], p[2], x, y),
        weight2(p[0], p[1], p[2], x, y),
        area_spec(p[0], p[1], p[2]),
    );
}

/// A pixel of the grid whose centre `c` lies strictly inside a
/// counter-clockwise triangle that is not behind the camera, in the terms of
/// the edge functions (`-edge(v0, v1, c) > 0`, `-edge(v1, v2, c) > 0`,
/// `-edge(v2, v0, c) > 0`), is covered by the edge-function test; when
/// lighting keeps it and its depth was cleared, the fill writes its shaded
/// color and its interpolated depth.
pub proof fn lemma_interior_pixel_written(
    r0: Rasteriser,
    r1: Rasteriser,
    tri: TriangleData,
    mode: TriangleShading,
    x: int,
    y: int,
)
    requires
        r0.wf(),
        filled(r0, r1, tri, mode),
        0 <= x < r0.width,
        0 <= y < r0.height,
        !behind_camera(tri.position),
        -edge_spec(tri.position[0].x as int, tri.position[0].y as int, tri.position[1].x as int, tri.position[1].y as int, x, y) > 0,
        -edge_spec(tri.position[1].x as int, tri.position[1].y as int, tri.position[2].x as int, tri.position[2].y as int, x, y) > 0,
        -edge_spec(tri.position[2].x as int, tri.position[2].y as int, tri.position[0].x as int, tri.position[0].y as int, x, y) > 0,
        r0.zbuffer@[coord_spec(r0.width as int, r0.height as int, x, y)] == DEPTH_CLEAR,
        shaded_color(
            r0.intensity_curve@,
            tri,
            mode,
            weight0(tri.position[0], tri.position[1], tri.position[2], x, y),
            weight1(tri.position[0], tri.position[1], tri.position[2], x, y),
            weight2(tri.position[0], tri.position[1], tri.position[2], x, y),
            area_spec(tri.position[0], tri.position[1], tri.position[2]),
        ) is Some,
    ensures
        covers(tri.position[0], tri.position[1], tri.position[2], x, y),
        r1.zbuffer@[coord_spec(r0.width as int, r0.height as int, x, y)] != DEPTH_CLEAR,
        r1.zbuffer@[coord_spec(r0.width as int, r0.height as int, x, y)] == depth_spec(
            tri.position,
            weight0(tri.position[0], tri.position[1], tri.position[2], x, y),
            weight1(tri.position[0], tri.position[1], tri.position[2], x, y),
            weight2(tri.position[0], tri.position[1], tri.position[2], x, y),
            area_spec(tri.position[0], tri.position[1], tri.position[2]),
        ),
        r1.buffer@[coord_spec(r0.width as int, r0.height as int, x, y)] == shaded_color(
            r0.intensity_curve@,
            tri,
            mode,
            weight0(tri.position[0], tri.position[1], tri.position[2], x, y),
            weight1(tri.position[0], tri.position[1], tri.position[2], x, y),
            weight2(tri.position[0], tri.position[1], tri.position[2], x, y),
            area_spec(tri.position[0], tri.position[1], tri.position[2]),
        )->0,
{
    let p = tri.position;
    let (w, h) = (r0.width as int, r0.height as int);
    let w0 = weight0(p[0], p[1], p[2], x, y);
    let w1 = weight1(p[0], p[1], p[2], x, y);
    let w2 = weight2(p[0], p[1], p[2], x, y);
    crate::geometry::lemma_weights_sum(p[0], p[1], p[2], x, y);
    crate::geometry::lemma_barycentric_identity(p[0], p[1], p[2], x, y);
    lemma_interior_pixel_filled(r0.intensity_curve@, tri, mode, x, y, w0, w1, w2);
    lemma_fragment_depth(r0.intensity_curve@, tri, mode, x, y);
    lemma_coord_bijection(w, h, x, y);
    let i = coord_spec(w, h, x, y);
    assert(filled_at(r0.buffer@, r0.zbuffer@, r0.intensity_curve@, w, h, tri, mode, i) == pixel_after(
        r0.buffer@[i] as int,
        r0.zbuffer@[i] as int,
        fragment(r0.intensity_curve@, tri, mode, x, y),
    ));
}

/// When the three corners share one depth, every depth a fill writes is that
/// depth: the barycentric weights add up to one.
pub proof fn lemma_equal_corner_depths(r0: Rasteriser, r1: Rasteriser, tri: TriangleData, mode: TriangleShading, z: u32)
    requires
        r0.wf(),
        filled(r0, r1, tri, mode),
        tri.position[0].z == z,
        tri.position[1].z == z,
        tri.position[2].z == z,
    ensures
        forall|j: int|
            0 <= j < r1.zbuffer@.len() && r1.zbuffer@[j] != r0.zbuffer@[j] ==> r1.zbuffer@[j] == z,
{
    let (w, h) = (r0.width as int, r0.height as int);
    assert forall|j: int| 0 <= j < r1.zbuffer@.len() && r1.zbuffer@[j] != r0.zbuffer@[j] implies r1.zbuffer@[j]
        == z by {
        let f = fragment(r0.intensity_curve@, tri, mode, pixel_x(w, j), pixel_y(w, h, j));
        assert(filled_at(r0.buffer@, r0.zbuffer@, r0.intensity_curve@, w, h, tri, mode, j) == pixel_after(
            r0.buffer@[j] as int,
            r0.zbuffer@[j] as int,
            f,
        ));
        let p = tri.position;
        let (px, py) = (pixel_x(w, j), pixel_y(w, h, j));
        crate::geometry::lemma_weights_sum(p[0], p[1], p[2], px, py);
        lemma_depth_between(
            p,
            weight0(p[0], p[1], p[2], px, py),
            weight1(p[0], p[1], p[2], px, py),
            weight2(p[0], p[1], p[2], px, py),
            area_spec(p[0], p[1], p[2]),
        );
    }
}

/// At a pixel that two triangles both reach, at different depths, on a
/// cleared depth, filling one and then the other leaves the nearer fragment:
/// its color and its depth.
pub proof fn lemma_nearer_fragment_wins(
    r0: Rasteriser,
    r1: Rasteriser,
    r2: Rasteriser,
    t1: TriangleData,
    t2: TriangleData,
    mode: TriangleShading,
    x: int,
    y: int,
)
    requires
        r0.wf(),
        filled(r0, r1, t1, mode),
        filled(r1, r2, t2, mode),
        0 <= x < r0.width,
        0 <= y < r0.height,
        r0.zbuffer@[coord_spec(r0.width as int, r0.height as int, x, y)] == DEPTH_CLEAR,
        fragment(r0.intensity_curve@, t1, mode, x, y) is Some,
        fragment(r0.intensity_curve@, t2, mode, x, y) is Some,
        (fragment(r0.intensity_curve@, t1, mode, x, y)->0).1 != (fragment(r0.intensity_curve@, t2, mode, x, y)->0).1,
    ensures
        ({
            let i = coord_spec(r0.width as int, r0.height as int, x, y);
            let f1 = fragment(r0.intensity_curve@, t1, mode, x, y)->0;
            let f2 = fragment(r0.intensity_curve@, t2, mode, x, y)->0;
            let near = if f1.1 < f2.1 {
                f1
            } else {
                f2
            };
            r2.buffer@[i] == near.0 && r2.zbuffer@[i] == near.1
        }),
{
    let (w, h) = (r0.width as int, r0.height as int);
    let curve = r0.intensity_curve@;
    lemma_coord_bijection(w, h, x, y);
    lemma_fragment_depth(curve, t1, mode, x, y);
    let i = coord_spec(w, h, x, y);
    assert(filled_at(r0.buffer@, r0.zbuffer@, curve, w, h, t1, mode, i) == pixel_after(
        r0.buffer@[i] as int,
        r0.zbuffer@[i] as int,
        fragment(curve, t1, mode, x, y),
    ));
    assert(filled_at(r1.buffer@, r1.zbuffer@, curve, w, h, t2, mode, i) == pixel_after(
        r1.buffer@[i] as int,
        r1.zbuffer@[i] as int,
        fragment(curve, t2, mode, x, y),
    ));
}

/// Filling the same triangle twice in succession changes nothing after the
/// first time: the depth test lets a pixel through only when it is strictly
/// nearer than what is stored, and the first fill stored that very depth.
pub proof fn lemma_fill_twice_idempotent(
    r0: Rasteriser,
    r1: Rasteriser,
    r2: Rasteriser,
    tri: TriangleData,
    mode: TriangleShading,
)
    requires
        r0.wf(),
        filled(r0, r1, tri, mode),
        filled(r1, r2, tri, mode),
    ensures
        r2.buffer@ == r1.buffer@,
        r2.zbuffer@ == r1.zbuffer@,
{
    assert forall|j: int| 0 <= j < r1.buffer@.len() implies r2.buffer@[j] == r1.buffer@[j]
        && r2.zbuffer@[j] == r1.zbuffer@[j] by {
        let f = fragment(r0.intensity_curve@, tri, mode, pixel_x(r0.width as int, j), pixel_y(r0.width as int, r0.height as int, j));
        assert(filled_at(r0.buffer@, r0.zbuffer@, r0.intensity_curve@, r0.width as int, r0.height as int, tri, mode, j)
            == pixel_after(r0.buffer@[j] as int, r0.zbuffer@[j] as int, f));
        assert(filled_at(r1.buffer@, r1.zbuffer@, r1.intensity_curve@, r1.width as int, r1.height as int, tri, mode, j)
            == pixel_after(r1.buffer@[j] as int, r1.zbuffer@[j] as int, f));
    }
    assert(r2.buffer@ =~= r1.buffer@);
    assert(r2.zbuffer@ =~= r1.zbuffer@);
}

/// Two triangles that lie at different depths wherever both reach a pixel
/// give the same framebuffer and depth buffer in either drawing order: at
/// each pixel the nearest of the stored depth and the two fragments wins.
pub proof fn lemma_fill_order_independent(
    r0: Rasteriser,
    a1: Rasteriser,
    a2: Rasteriser,
    b1: Rasteriser,
    b2: Rasteriser,
    t1: TriangleData,
    t2: TriangleData,
    mode: TriangleShading,
)
    requires
        r0.wf(),
        filled(r0, a1, t1, mode),
        filled(a1, a2, t2, mode),
        filled(r0, b1, t2, mode),
        filled(b1, b2, t1, mode),
        forall|x: int, y: int|
            0 <= x < r0.width && 0 <= y < r0.height && fragment(r0.intensity_curve@, t1, mode, x, y) is Some
                && fragment(r0.intensity_curve@, t2, mode, x, y) is Some ==> (fragment(r0.intensity_curve@, t1, mode, x, y)->0).1
                != (fragment(r0.intensity_curve@, t2, mode, x, y)->0).1,
    ensures
        a2.buffer@ == b2.buffer@,
        a2.zbuffer@ == b2.zbuffer@,
{
    let w = r0.width as int;
    let h = r0.height as int;
    let curve = r0.intensity_curve@;
    assert forall|j: int| 0 <= j < r0.buffer@.len() implies a2.buffer@[j] == b2.buffer@[j]
        && a2.zbuffer@[j] == b2.zbuffer@[j] by {
        lemma_index_pixel(w, h, j);
        let x = pixel_x(w, j);
        let y = pixel_y(w, h, j);
        let f1 = fragment(curve, t1, mode, x, y);
        let f2 = fragment(curve, t2, mode, x, y);
        assert(filled_at(r0.buffer@, r0.zbuffer@, curve, w, h, t1, mode, j) == pixel_after(
            r0.buffer@[j] as int,
            r0.zbuffer@[j] as int,
            f1,
        ));
        assert(filled_at(r0.buffer@, r0.zbuffer@, curve, w, h, t2, mode, j) == pixel_after(
            r0.buffer@[j] as int,
            r0.zbuffer@[j] as int,
            f2,
        ));
        assert(filled_at(a1.buffer@, a1.zbuffer@, curve, w, h, t2, mode, j) == pixel_after(
            a1.buffer@[j] as int,
            a1.zbuffer@[j] as int,
            f2,
        ));
        assert(filled_at(b1.buffer@, b1.zbuffer@, curve, w, h, t1, mode, j) == pixel_after(
            b1.buffer@[j] as int,
            b1.zbuffer@[j] as int,
            f1,
        ));
    }
    assert(a2.buffer@ =~= b2.buffer@);
    assert(a2.zbuffer@ =~= b2.zbuffer@);
}

} // verus!
