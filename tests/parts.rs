use rasteriser::texture::{flip_rows, TEX_ONE};
use rasteriser::{Color, MtlData, MtlError, TexCoord, TextureData};
use std::rc::Rc;

fn corner_texture() -> TextureData {
    // 2 x 2 texels, bottom row first: red, green / blue, white
    let pixels = vec![
        255, 0, 0, 255, 0, 255, 0, 255, //
        0, 0, 255, 255, 255, 255, 255, 255,
    ];
    TextureData::new(
        Rc::new(pixels),
        2,
        2,
        [TexCoord { u: 0, v: 0 }, TexCoord { u: TEX_ONE, v: 0 }, TexCoord { u: 0, v: TEX_ONE }],
    )
}

#[test]
fn texture_corners_sample_exactly() {
    let t = corner_texture();
    assert!(t.is_well_formed());
    assert_eq!(t.sample(1, 0, 0, 1), Color::new_from_rgb(255, 0, 0));
    assert_eq!(t.sample(0, 1, 0, 1), Color::new_from_rgb(0, 255, 0));
    assert_eq!(t.sample(0, 0, 1, 1), Color::new_from_rgb(0, 0, 255));
}

#[test]
fn texture_sampling_is_nearest_and_clamped() {
    let t = corner_texture();
    // u = 0.5, v = 0.5 falls in texel (1, 1)
    assert_eq!(t.sample(0, 1, 1, 2), Color::new_from_rgb(255, 255, 255));
    // u just under 0.5 stays in column 0
    assert_eq!(t.sample(51, 49, 0, 100), Color::new_from_rgb(255, 0, 0));
    // coordinates beyond 1 or below 0 clamp to the border
    let far = TextureData::new(
        t.texture.clone(),
        2,
        2,
        [TexCoord { u: 3 * TEX_ONE, v: -TEX_ONE }, TexCoord { u: 0, v: 0 }, TexCoord { u: 0, v: 0 }],
    );
    assert_eq!(far.sample(1, 0, 0, 1), Color::new_from_rgb(0, 255, 0));
}

#[test]
fn texture_well_formedness() {
    let bad = TextureData::new(Rc::new(vec![0; 15]), 2, 2, [TexCoord { u: 0, v: 0 }; 3]);
    assert!(!bad.is_well_formed());
    let empty = TextureData::new(Rc::new(vec![]), 0, 3, [TexCoord { u: 0, v: 0 }; 3]);
    assert!(!empty.is_well_formed());
    let huge = TextureData::new(Rc::new(vec![]), usize::MAX, 2, [TexCoord { u: 0, v: 0 }; 3]);
    assert!(!huge.is_well_formed());
}

#[test]
fn flip_rows_reverses_rows_and_clears_alpha() {
    // 1 x 2 image: top row first
    let top_down = vec![1, 2, 3, 4, 5, 6, 7, 8];
    assert_eq!(flip_rows(&top_down, 1, 2), vec![5, 6, 7, 0, 1, 2, 3, 0]);
    let wide = vec![1, 1, 1, 1, 2, 2, 2, 2, 3, 3, 3, 3, 4, 4, 4, 4];
    assert_eq!(flip_rows(&wide, 2, 2), vec![3, 3, 3, 0, 4, 4, 4, 0, 1, 1, 1, 0, 2, 2, 2, 0]);
}

#[test]
fn color_packing() {
    assert_eq!(Color::new_from_rgb(0x12, 0x34, 0x56).get_pixel_color(), 0x123456);
    assert_eq!(Color::new_from_rgb(255, 255, 255).get_pixel_color(), 0xFFFFFF);
    assert_eq!(Color::new_from_rgb(0, 0, 0).get_pixel_color(), 0);
}

#[test]
fn color_intensity() {
    let mut c = Color::new_from_rgb(200, 100, 1);
    c.modify_intensity(255);
    assert_eq!(c, Color::new_from_rgb(200, 100, 1));
    c.modify_intensity(128);
    // (200 * 128 + 127) / 255 = 100, (100 * 128 + 127) / 255 = 50, (128 + 127) / 255 = 1
    assert_eq!(c, Color::new_from_rgb(100, 50, 1));
    c.modify_intensity(0);
    assert_eq!(c, Color::new_from_rgb(0, 0, 0));
}

fn lines(text: &str) -> Vec<Vec<String>> {
    text.lines().map(|l| l.split_whitespace().map(|s| s.to_string()).collect()).collect()
}

#[test]
fn mtl_maps_materials_to_textures() {
    let m = MtlData::new(&lines(
        "# a comment\nnewmtl skin\nKd 1 1 1\nmap_Kd skin.png\n\nnewmtl cloth\nmap_Kd a.png\nmap_Kd b.png\n",
    ))
    .unwrap();
    assert_eq!(m.texture_path(&"skin".to_string()), Some("skin.png".to_string()));
    assert_eq!(m.texture_path(&"cloth".to_string()), Some("b.png".to_string()));
    assert_eq!(m.texture_path(&"metal".to_string()), None);
    assert_eq!(m.texture_path_map.len(), 2);
}

#[test]
fn mtl_errors() {
    assert_eq!(MtlData::new(&lines("map_Kd a.png")).err(), Some(MtlError::NoMaterial(0)));
    assert_eq!(MtlData::new(&lines("newmtl a\n\nmap_Kd")).err(), Some(MtlError::MissingPath(2)));
    assert_eq!(MtlData::new(&lines("newmtl")).err(), Some(MtlError::MissingName(0)));
}

#[test]
fn mtl_insert_replaces() {
    let mut m = MtlData::empty();
    m.insert("a".to_string(), "1.png".to_string());
    m.insert("b".to_string(), "2.png".to_string());
    m.insert("a".to_string(), "3.png".to_string());
    assert_eq!(m.texture_path_map.len(), 2);
    assert_eq!(m.texture_path(&"a".to_string()), Some("3.png".to_string()));
}
