//! How surfaces are shaded.
use vstd::prelude::*;

verus! {

/// The kinds of shading.
#[derive(Clone, Copy, Debug, PartialEq, Eq, Structural)]
pub enum ShaderType {
    /// One shading value per pixel.
    Phong,
    /// Shading interpolated from the triangle's vertices.
    Gouraud,
    /// One shading value per triangle.
    Flat,
}

/// The pixel that a texel is drawn as: its red, green and blue, fully
/// opaque whatever the texel's own alpha. `None` where the texel has fewer
/// than three channels.
pub fn opaque_pixel(texel: &[u8]) -> (rgba: Option<[u8; 4]>)
    ensures
        rgba is Some <==> texel@.len() >= 3,
        rgba matches Some(pixel) ==> pixel@ == seq![texel@[0], texel@[1], texel@[2], 255u8],
{
    if texel.len() < 3 {
        return None;
    }
    let pixel: [u8; 4] = [texel[0], texel[1], texel[2], 255];
    assert(pixel@ =~= seq![texel@[0], texel@[1], texel@[2], 255u8]);
    Some(pixel)
}

/// The colour of a pixel drawn without a texture: opaque black.
pub fn untextured_pixel() -> (rgba: [u8; 4])
    ensures
        rgba@ == seq![0u8, 0u8, 0u8, 255u8],
{
    let pixel: [u8; 4] = [0, 0, 0, 255];
    assert(pixel@ =~= seq![0u8, 0u8, 0u8, 255u8]);
    pixel
}

} // verus!
