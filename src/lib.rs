//! A software triangle rasteriser: scan conversion with edge functions, a
//! depth buffer, flat and Gouraud lighting, nearest-neighbour texturing and
//! Bresenham lines, over integer raster coordinates and fixed-point depths,
//! normals and texture coordinates.
use vstd::prelude::*;

pub mod color;
pub mod geometry;
pub mod mtl_parser;
pub mod obj_face;
pub mod rasteriser;
pub mod shading;
pub mod texture;

pub use color::Color;
pub use geometry::{ScreenVertex, Vec3};
pub use mtl_parser::{MtlData, MtlError};
pub use rasteriser::{Rasteriser, RenderError, TriangleData, TriangleShading};
pub use texture::{TexCoord, TextureData};

verus! {

} // verus!
