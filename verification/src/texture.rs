//! The textures made from png images: which image format a font texture
//! gets, given what the png decoder reports of the image.

use vstd::prelude::*;

verus! {

/// Format code of 8 bit red, green, blue, alpha.
pub const FORMAT_R8G8B8A8_UNORM: i32 = 37;

/// Png color type code of red, green, blue and alpha samples.
pub const PNG_COLOR_RGBA: u8 = 6;

/// Png bit depth of 8 bits per sample.
pub const PNG_BIT_DEPTH_EIGHT: u8 = 8;

/// What the png decoder reports of the image in `bytes` once it read the
/// header: width, height, and the color type code and bit depth of the
/// decoded pixels; `None` when it can not read the image.
pub uninterp spec fn png_output_header(bytes: Seq<u8>) -> Option<(u32, u32, u8, u8)>;

/// Reads the header of the png image `bytes` with `png::Decoder::read_info`
/// and reports the size of the image and the color type and bit depth that
/// `Reader::output_color_type` gives. The result is believed to be the named
/// `png_output_header` of the bytes: the decoder only reads the bytes it is
/// given, with its default limits and transformations.
#[verifier::external_body]
fn read_png_header(bytes: &[u8]) -> (r: Option<(u32, u32, u8, u8)>)
    ensures
        r == png_output_header(bytes@),
{
    match png::Decoder::new(bytes).read_info() {
        Ok(reader) => {
            let (color_type, bit_depth) = reader.output_color_type();
            Some((reader.info().width, reader.info().height, color_type as u8, bit_depth as u8))
        },
        Err(_) => None,
    }
}

/// Errors of the texture creation.
#[derive(Copy, Clone, PartialEq, Eq, Structural, Debug)]
pub enum TextureError {
    /// The png image could not be read.
    InvalidImage,
    /// Images of this color type code and bit depth are not supported.
    UnsupportedFormat(u8, u8),
}

/// The format and the size of a texture.
#[derive(Copy, Clone, PartialEq, Eq, Structural, Debug)]
pub struct TextureInfo {
    pub format: i32,
    pub width: u32,
    pub height: u32,
    pub depth: u32,
}

/// The texture of a font image of the given header: only 8 bit red, green,
/// blue, alpha images are supported.
pub open spec fn font_texture_info(header: (u32, u32, u8, u8)) -> Result<TextureInfo, TextureError> {
    if header.2 == PNG_COLOR_RGBA && header.3 == PNG_BIT_DEPTH_EIGHT {
        Ok(TextureInfo { format: FORMAT_R8G8B8A8_UNORM, width: header.0, height: header.1, depth: 1 })
    } else {
        Err(TextureError::UnsupportedFormat(header.2, header.3))
    }
}

/// The texture of a font image of `width` x `height` pixels whose decoded
/// pixels have the color type code `color_type` and bit depth `bit_depth`.
pub fn font_texture_from_header(width: u32, height: u32, color_type: u8, bit_depth: u8) -> (r: Result<
    TextureInfo,
    TextureError,
>)
    ensures
        r == font_texture_info((width, height, color_type, bit_depth)),
{
    if color_type == PNG_COLOR_RGBA && bit_depth == PNG_BIT_DEPTH_EIGHT {
        Ok(TextureInfo { format: FORMAT_R8G8B8A8_UNORM, width, height, depth: 1 })
    } else {
        Err(TextureError::UnsupportedFormat(color_type, bit_depth))
    }
}

/// The texture of the font image in the png `bytes`.
pub fn font_texture_from_png(bytes: &[u8]) -> (r: Result<TextureInfo, TextureError>)
    ensures
        r == match png_output_header(bytes@) {
            None => Err(TextureError::InvalidImage),
            Some(header) => font_texture_info(header),
        },
{
    match read_png_header(bytes) {
        None => Err(TextureError::InvalidImage),
        Some((width, height, color_type, bit_depth)) => font_texture_from_header(width, height, color_type, bit_depth),
    }
}

} // verus!
