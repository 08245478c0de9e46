use rasteriser::geometry::{barycentric, face_normal, signed_area};
use rasteriser::rasteriser::{DEPTH_CLEAR, DEPTH_ONE};
use rasteriser::texture::TEX_ONE;
use rasteriser::{
    Rasteriser, RenderError, ScreenVertex, TexCoord, TextureData, TriangleData, TriangleShading, Vec3,
};
use std::rc::Rc;

/// Intensity curve that maps every squared-cosine level to itself.
fn linear_curve() -> Vec<u8> {
    (0..=255u8).collect()
}

fn sv(x: i32, y: i32, z: u32) -> ScreenVertex {
    ScreenVertex { x, y, z }
}

fn flat_tri(p: [ScreenVertex; 3]) -> TriangleData {
    TriangleData {
        position: p,
        world: [
            Vec3 { x: (p[0].x - p[0].x) as i16, y: (p[0].y - p[0].y) as i16, z: 0 },
            Vec3 { x: (p[1].x - p[0].x).clamp(-1000, 1000) as i16, y: (p[1].y - p[0].y).clamp(-1000, 1000) as i16, z: 0 },
            Vec3 { x: (p[2].x - p[0].x).clamp(-1000, 1000) as i16, y: (p[2].y - p[0].y).clamp(-1000, 1000) as i16, z: 0 },
        ],
        texture: None,
        normal: None,
    }
}

fn half() -> u32 {
    DEPTH_ONE / 2
}

#[test]
fn end_to_end_right_triangle_is_white() {
    let mut r = Rasteriser::new(64, 64, linear_curve());
    let tri = flat_tri([sv(10, 10, half()), sv(50, 10, half()), sv(10, 50, half())]);
    assert_eq!(r.draw_triangle(&tri, TriangleShading::Flat), Ok(()));
    for y in 0..64usize {
        for x in 0..64usize {
            let inside = x >= 10 && y >= 10 && (x - 10) + (y - 10) <= 40;
            let v = r.buffer[r.calculate_coord(x, y)];
            if inside {
                assert_eq!(v, 0xFFFFFF, "pixel {} {}", x, y);
            } else {
                assert_eq!(v, 0x000000, "pixel {} {}", x, y);
            }
        }
    }
}

#[test]
fn clockwise_triangle_writes_nothing() {
    let mut r = Rasteriser::new(64, 64, linear_curve());
    let tri = flat_tri([sv(10, 10, half()), sv(10, 50, half()), sv(50, 10, half())]);
    assert_eq!(r.draw_triangle(&tri, TriangleShading::Flat), Ok(()));
    assert!(r.buffer.iter().all(|&c| c == 0));
    assert!(r.zbuffer.iter().all(|&z| z == DEPTH_CLEAR));
}

#[test]
fn degenerate_triangle_writes_nothing() {
    let mut r = Rasteriser::new(64, 64, linear_curve());
    let tri = flat_tri([sv(10, 10, half()), sv(20, 20, half()), sv(30, 30, half())]);
    assert_eq!(signed_area(tri.position[0], tri.position[1], tri.position[2]), 0);
    assert_eq!(r.draw_triangle(&tri, TriangleShading::Flat), Ok(()));
    assert!(r.buffer.iter().all(|&c| c == 0));
}

#[test]
fn drawing_twice_changes_nothing() {
    let mut r = Rasteriser::new(32, 32, linear_curve());
    let tri = flat_tri([sv(2, 2, half()), sv(25, 4, half()), sv(6, 28, half())]);
    r.draw_triangle(&tri, TriangleShading::Flat).unwrap();
    let once = (r.buffer.clone(), r.zbuffer.clone());
    r.draw_triangle(&tri, TriangleShading::Flat).unwrap();
    assert_eq!(once, (r.buffer.clone(), r.zbuffer.clone()));
}

#[test]
fn draw_order_does_not_matter() {
    let near = flat_tri([sv(0, 0, 100), sv(20, 0, 100), sv(0, 20, 100)]);
    let mut far = flat_tri([sv(5, 5, 5000), sv(30, 5, 5000), sv(5, 30, 5000)]);
    // give the far triangle a darker texture so the two colors differ
    far.texture = Some(TextureData::new(
        Rc::new(vec![10, 20, 30, 255]),
        1,
        1,
        [TexCoord { u: 0, v: 0 }; 3],
    ));
    let mut a = Rasteriser::new(32, 32, linear_curve());
    a.draw_triangle(&near, TriangleShading::Flat).unwrap();
    a.draw_triangle(&far, TriangleShading::Flat).unwrap();
    let mut b = Rasteriser::new(32, 32, linear_curve());
    b.draw_triangle(&far, TriangleShading::Flat).unwrap();
    b.draw_triangle(&near, TriangleShading::Flat).unwrap();
    assert_eq!(a.buffer, b.buffer);
    assert_eq!(a.zbuffer, b.zbuffer);
    // a shared pixel shows the nearer triangle
    assert_eq!(a.buffer[a.calculate_coord(6, 6)], 0xFFFFFF);
    // a pixel only the far triangle covers shows its texel
    assert_eq!(a.buffer[a.calculate_coord(20, 10)], 0x0A141E);
}

#[test]
fn equal_depth_keeps_first() {
    let white = flat_tri([sv(0, 0, 100), sv(20, 0, 100), sv(0, 20, 100)]);
    let mut grey = flat_tri([sv(0, 0, 100), sv(20, 0, 100), sv(0, 20, 100)]);
    grey.texture = Some(TextureData::new(Rc::new(vec![7, 7, 7, 0]), 1, 1, [TexCoord { u: 0, v: 0 }; 3]));
    let mut r = Rasteriser::new(32, 32, linear_curve());
    r.draw_triangle(&white, TriangleShading::Flat).unwrap();
    r.draw_triangle(&grey, TriangleShading::Flat).unwrap();
    assert_eq!(r.buffer[r.calculate_coord(2, 2)], 0xFFFFFF);
}

#[test]
fn coordinate_mapping_is_a_bijection() {
    let (w, h) = (7usize, 5usize);
    let r = Rasteriser::new(w, h, linear_curve());
    let mut seen = vec![false; w * h];
    for y in 0..h {
        for x in 0..w {
            let i = r.calculate_coord(x, y);
            assert!(i < w * h);
            assert!(!seen[i]);
            seen[i] = true;
        }
    }
    assert!(seen.iter().all(|&s| s));
    // origin bottom left: (0, 0) is the first pixel of the last row in memory
    assert_eq!(r.calculate_coord(0, 0), (h - 1) * w);
    assert_eq!(r.calculate_coord(w - 1, h - 1), w - 1);
}

#[test]
fn interior_weights_sum_to_area() {
    let (v0, v1, v2) = (sv(0, 0, 0), sv(9, 0, 0), sv(0, 9, 0));
    let area = signed_area(v0, v1, v2);
    assert_eq!(area, 81);
    let (w0, w1, w2) = barycentric(v0, v1, v2, 3, 3);
    assert!(w0 > 0 && w1 > 0 && w2 > 0);
    assert_eq!(w0 + w1 + w2, area);
    assert_eq!((w0, w1, w2), (27, 27, 27));
    // at a corner all the weight goes to that corner
    assert_eq!(barycentric(v0, v1, v2, 9, 0), (0, 81, 0));
    // outside the triangle some weight is negative
    let (a, b, c) = barycentric(v0, v1, v2, 8, 8);
    assert!(a < 0 || b < 0 || c < 0);
}

#[test]
fn face_normal_follows_winding() {
    let n = face_normal([Vec3 { x: 0, y: 0, z: 0 }, Vec3 { x: 4, y: 0, z: 0 }, Vec3 { x: 0, y: 3, z: 0 }]);
    assert_eq!(n, (0, 0, -12));
}

#[test]
fn behind_camera_is_skipped() {
    let mut r = Rasteriser::new(32, 32, linear_curve());
    let tri = flat_tri([sv(0, 0, DEPTH_ONE + 1), sv(20, 0, 10), sv(0, 20, 10)]);
    assert_eq!(r.draw_triangle(&tri, TriangleShading::Flat), Ok(()));
    assert_eq!(r.draw_triangle(&tri, TriangleShading::Points), Ok(()));
    assert!(r.buffer.iter().all(|&c| c == 0));
}

#[test]
fn light_from_behind_is_rejected() {
    let mut r = Rasteriser::new(32, 32, linear_curve());
    let mut tri = flat_tri([sv(0, 0, 10), sv(20, 0, 10), sv(0, 20, 10)]);
    // reverse the winding of the positions before projection only
    tri.world = [tri.world[0], tri.world[2], tri.world[1]];
    r.draw_triangle(&tri, TriangleShading::Flat).unwrap();
    assert!(r.buffer.iter().all(|&c| c == 0));
}

#[test]
fn intensity_curve_scales_color() {
    let mut curve = vec![0u8; 256];
    curve[255] = 128;
    let mut r = Rasteriser::new(32, 32, curve);
    let tri = flat_tri([sv(0, 0, 10), sv(20, 0, 10), sv(0, 20, 10)]);
    r.draw_triangle(&tri, TriangleShading::Flat).unwrap();
    // (255 * 128 + 127) / 255 = 128
    assert_eq!(r.buffer[r.calculate_coord(1, 1)], 0x808080);
}

#[test]
fn gouraud_uses_corner_normals() {
    let mut r = Rasteriser::new(32, 32, linear_curve());
    let mut tri = flat_tri([sv(0, 0, 10), sv(20, 0, 10), sv(0, 20, 10)]);
    assert_eq!(r.draw_triangle(&tri, TriangleShading::Gouraud), Err(RenderError::MissingNormals));
    assert!(r.buffer.iter().all(|&c| c == 0));
    // normals facing the viewer (+z) are lit by the light shining along -z
    tri.normal = Some([Vec3 { x: 0, y: 0, z: 1000 }; 3]);
    assert_eq!(r.draw_triangle(&tri, TriangleShading::Gouraud), Ok(()));
    assert_eq!(r.buffer[r.calculate_coord(2, 2)], 0xFFFFFF);
    // half-turned normals give a squared cosine of one half: level 127
    let mut s = Rasteriser::new(32, 32, linear_curve());
    tri.normal = Some([Vec3 { x: 1000, y: 0, z: 1000 }; 3]);
    s.draw_triangle(&tri, TriangleShading::Gouraud).unwrap();
    assert_eq!(s.buffer[s.calculate_coord(2, 2)], 0x7F7F7F);
}

#[test]
fn malformed_texture_is_reported() {
    let mut r = Rasteriser::new(32, 32, linear_curve());
    let mut tri = flat_tri([sv(0, 0, 10), sv(20, 0, 10), sv(0, 20, 10)]);
    tri.texture = Some(TextureData::new(Rc::new(vec![1, 2, 3]), 1, 1, [TexCoord { u: 0, v: 0 }; 3]));
    assert_eq!(r.draw_triangle(&tri, TriangleShading::Flat), Err(RenderError::MalformedTexture));
    assert!(r.buffer.iter().all(|&c| c == 0));
    // points ignore the texture
    assert_eq!(r.draw_triangle(&tri, TriangleShading::Points), Ok(()));
}

#[test]
fn textured_triangle_samples_texels() {
    let mut r = Rasteriser::new(8, 8, linear_curve());
    let mut tri = flat_tri([sv(0, 0, 10), sv(7, 0, 10), sv(0, 7, 10)]);
    let pixels = vec![
        255, 0, 0, 255, 0, 255, 0, 255, //
        0, 0, 255, 255, 9, 9, 9, 255,
    ];
    tri.texture = Some(TextureData::new(
        Rc::new(pixels),
        2,
        2,
        [TexCoord { u: 0, v: 0 }, TexCoord { u: TEX_ONE, v: 0 }, TexCoord { u: 0, v: TEX_ONE }],
    ));
    r.draw_triangle(&tri, TriangleShading::Flat).unwrap();
    assert_eq!(r.buffer[r.calculate_coord(0, 0)], 0xFF0000);
    assert_eq!(r.buffer[r.calculate_coord(7, 0)], 0x00FF00);
    assert_eq!(r.buffer[r.calculate_coord(0, 7)], 0x0000FF);
}

#[test]
fn points_draw_three_corners() {
    let mut r = Rasteriser::new(16, 16, linear_curve());
    let tri = flat_tri([sv(1, 2, 10), sv(10, 3, 10), sv(4, 12, 10)]);
    r.draw_triangle(&tri, TriangleShading::Points).unwrap();
    let lit: Vec<usize> = (0..256).filter(|&i| r.buffer[i] != 0).collect();
    let mut want = vec![r.calculate_coord(1, 2), r.calculate_coord(10, 3), r.calculate_coord(4, 12)];
    want.sort();
    assert_eq!(lit, want);
    assert!(r.zbuffer.iter().all(|&z| z == DEPTH_CLEAR));
    // a corner off the grid draws nothing
    let mut s = Rasteriser::new(16, 16, linear_curve());
    s.draw_triangle(&flat_tri([sv(-1, 2, 10), sv(10, 3, 10), sv(4, 12, 10)]), TriangleShading::Points).unwrap();
    assert!(s.buffer.iter().all(|&c| c == 0));
}

#[test]
fn wireframe_draws_edges() {
    let mut r = Rasteriser::new(16, 16, linear_curve());
    let tri = flat_tri([sv(0, 0, 10), sv(10, 0, 10), sv(0, 10, 10)]);
    r.draw_triangle(&tri, TriangleShading::Wireframe).unwrap();
    for x in 0..=10 {
        assert_eq!(r.buffer[r.calculate_coord(x, 0)], 0xFFFFFF);
    }
    for y in 0..=10 {
        assert_eq!(r.buffer[r.calculate_coord(0, y)], 0xFFFFFF);
    }
    for k in 0..=10 {
        assert_eq!(r.buffer[r.calculate_coord(10 - k, k)], 0xFFFFFF);
    }
    // the inside stays empty
    assert_eq!(r.buffer[r.calculate_coord(3, 3)], 0);
    assert_eq!(r.buffer.iter().filter(|&&c| c != 0).count(), 30);
}

#[test]
fn bresenham_line_steep_and_shallow() {
    let mut r = Rasteriser::new(16, 16, linear_curve());
    r.draw_line(1, 1, 9, 4, 0x123456);
    let lit: Vec<(usize, usize)> = (0..16)
        .flat_map(|y| (0..16).map(move |x| (x, y)))
        .filter(|&(x, y)| r.buffer[r.calculate_coord(x, y)] == 0x123456)
        .collect();
    assert_eq!(
        lit,
        vec![(1, 1), (2, 1), (3, 2), (4, 2), (5, 3), (6, 3), (7, 3), (8, 4), (9, 4)]
    );
    let mut s = Rasteriser::new(16, 16, linear_curve());
    s.draw_line(5, 12, 5, 2, 7);
    assert_eq!(s.buffer.iter().filter(|&&c| c == 7).count(), 11);
    let mut t = Rasteriser::new(16, 16, linear_curve());
    t.draw_line(3, 3, 3, 3, 9);
    assert_eq!(t.buffer.iter().filter(|&&c| c == 9).count(), 1);
}

#[test]
fn clear_buffers_resets() {
    let mut r = Rasteriser::new(16, 16, linear_curve());
    let tri = flat_tri([sv(0, 0, 10), sv(10, 0, 10), sv(0, 10, 10)]);
    r.draw_triangle(&tri, TriangleShading::Flat).unwrap();
    assert!(r.buffer.iter().any(|&c| c != 0));
    r.clear_buffers();
    assert!(r.buffer.iter().all(|&c| c == 0));
    assert!(r.zbuffer.iter().all(|&z| z == DEPTH_CLEAR));
}

#[test]
fn render_frame_reports_and_continues() {
    let mut r = Rasteriser::new(16, 16, linear_curve());
    let good = flat_tri([sv(0, 0, 10), sv(10, 0, 10), sv(0, 10, 10)]);
    let bad = flat_tri([sv(5, 5, 10), sv(15, 5, 10), sv(5, 15, 10)]);
    r.draw_triangle(&flat_tri([sv(12, 12, 10), sv(15, 12, 10), sv(12, 15, 10)]), TriangleShading::Flat).unwrap();
    let errors = r.render_frame(&vec![bad, good], TriangleShading::Gouraud);
    assert_eq!(errors, vec![(0, RenderError::MissingNormals), (1, RenderError::MissingNormals)]);
    // the earlier frame was cleared
    assert!(r.buffer.iter().all(|&c| c == 0));
    let good = flat_tri([sv(0, 0, 10), sv(10, 0, 10), sv(0, 10, 10)]);
    let mut bad = flat_tri([sv(5, 5, 10), sv(15, 5, 10), sv(5, 15, 10)]);
    bad.texture = Some(TextureData::new(Rc::new(vec![]), 1, 1, [TexCoord { u: 0, v: 0 }; 3]));
    let errors = r.render_frame(&vec![bad, good], TriangleShading::Flat);
    assert_eq!(errors, vec![(0, RenderError::MalformedTexture)]);
    assert_eq!(r.buffer[r.calculate_coord(1, 1)], 0xFFFFFF);
    assert_eq!(r.buffer[r.calculate_coord(14, 14)], 0);
}

#[test]
fn depth_is_interpolated() {
    let mut r = Rasteriser::new(16, 16, linear_curve());
    let tri = flat_tri([sv(0, 0, 0), sv(10, 0, 1000), sv(0, 10, 2000)]);
    r.draw_triangle(&tri, TriangleShading::Flat).unwrap();
    assert_eq!(r.zbuffer[r.calculate_coord(0, 0)], 0);
    assert_eq!(r.zbuffer[r.calculate_coord(5, 0)], 500);
    assert_eq!(r.zbuffer[r.calculate_coord(0, 5)], 1000);
    assert_eq!(r.zbuffer[r.calculate_coord(2, 3)], 800);
}

#[test]
fn wide_framebuffer_is_accepted() {
    let r = Rasteriser::new(40000, 10, linear_curve());
    assert_eq!(r.buffer.len(), 400000);
    assert!(r.buffer.iter().all(|&c| c == 0));
    assert!(r.zbuffer.iter().all(|&z| z == DEPTH_CLEAR));
    let mut r = r;
    let tri = flat_tri([sv(39990, 0, 10), sv(39999, 0, 10), sv(39990, 9, 10)]);
    r.draw_triangle(&tri, TriangleShading::Flat).unwrap();
    assert_eq!(r.buffer[r.calculate_coord(39995, 2)], 0xFFFFFF);
}

#[test]
fn far_corners_are_clipped() {
    let mut r = Rasteriser::new(16, 16, linear_curve());
    // corners far outside the grid on every side; the grid lies inside
    let tri = flat_tri([sv(-100000, -100000, 10), sv(300000, -100000, 10), sv(-100000, 300000, 10)]);
    r.draw_triangle(&tri, TriangleShading::Flat).unwrap();
    assert!(r.buffer.iter().all(|&c| c == 0xFFFFFF));
}

#[test]
fn draw_pixel_beyond_buffer_is_ignored() {
    let mut r = Rasteriser::new(4, 4, linear_curve());
    r.draw_pixel(16, 5);
    r.draw_pixel(usize::MAX, 5);
    assert!(r.buffer.iter().all(|&c| c == 0));
    r.draw_pixel(15, 5);
    assert_eq!(r.buffer[15], 5);
}

#[test]
fn line_off_grid_is_clipped() {
    let mut r = Rasteriser::new(8, 8, linear_curve());
    r.draw_line(2, 3, 20, 3, 4);
    let lit: Vec<(usize, usize)> = (0..8)
        .flat_map(|y| (0..8).map(move |x| (x, y)))
        .filter(|&(x, y)| r.buffer[r.calculate_coord(x, y)] == 4)
        .collect();
    assert_eq!(lit, (2..8).map(|x| (x, 3)).collect::<Vec<_>>());
    let mut s = Rasteriser::new(8, 8, linear_curve());
    s.draw_line(100, 100, 200, 50, 4);
    assert!(s.buffer.iter().all(|&c| c == 0));
}

#[test]
fn render_frame_points_and_wireframe() {
    let mut r = Rasteriser::new(16, 16, linear_curve());
    let scene = vec![flat_tri([sv(1, 1, 10), sv(5, 1, 10), sv(1, 5, 10)])];
    assert!(r.render_frame(&scene, TriangleShading::Points).is_empty());
    assert_eq!(r.buffer.iter().filter(|&&c| c != 0).count(), 3);
    assert!(r.zbuffer.iter().all(|&z| z == DEPTH_CLEAR));
    assert!(r.render_frame(&scene, TriangleShading::Wireframe).is_empty());
    assert_eq!(r.buffer.iter().filter(|&&c| c != 0).count(), 12);
}
