//! The records of a JAM archive and the errors its functions report.

use vstd::prelude::*;

verus! {

/// Width of the canvas in pixels; every canvas row is this many bytes.
pub const CANVAS_W: usize = 256;

/// JAM texture record (32 bytes). Each record defines a texture region on a 256-wide canvas.
#[derive(Clone, Copy, Debug, PartialEq, Eq)]
pub struct JamTexture {
    /// X coordinate on the 256-wide canvas.
    pub left: u8,
    /// Y coordinate on the canvas.
    pub top: u8,
    /// Unknown. Often 0.
    pub unk02: u16,
    /// Width of the texture region in pixels.
    pub width: u16,
    /// Height of the texture region in pixels.
    pub height: u16,
    /// Unknown. Often 0.
    pub unk08: u16,
    /// Unknown. Often 10496 in track textures, 0 in car textures.
    pub unk0a: u16,
    /// Offset within the canvas data where this texture's pixels start.
    pub image_ptr: u16,
    /// Unknown. Often 0.
    pub unk0e: u16,
    /// Size of a single haze palette (there are 4 such palettes per texture).
    /// Each entry in a haze palette is a byte that maps to the global palette.
    pub quarter_palette_size: u16,
    /// Unique identifier for this texture used by the game engine.
    pub texture_id: u16,
    /// Flag indicating if this texture has transparency (often 8 or 0).
    pub transparent: u16,
    /// Unknown. Small value (e.g., 0, 40).
    pub unk16: u8,
    /// Unknown. Small value (e.g., 72, 201, 202).
    pub unk17: u8,
    /// 8 bytes of unknown data. Usually all zeros.
    pub unk18: [u8; 8],
}

/// A decrypted JAM archive, split into its parts.
#[derive(Clone, Debug, PartialEq, Eq)]
pub struct JamParsed {
    pub stem: String,
    pub num_textures: u16,
    pub canvas_h: u16,
    pub textures: Vec<JamTexture>,
    pub palette_data: Vec<u8>,
    pub canvas: Vec<u8>,
}

/// One texture of the metadata that goes with a set of exported images:
/// its record, the name of its image file and its haze-0 palette.
#[derive(Clone, Debug, PartialEq, Eq)]
pub struct MetaTexture {
    pub tx: JamTexture,
    pub png_name: String,
    pub palette: Vec<u8>,
}

/// The metadata from which a JAM archive is encoded.
#[derive(Clone, Debug, PartialEq, Eq)]
pub struct JamMeta {
    pub stem: String,
    pub num_textures: u16,
    pub canvas_h: u16,
    pub textures: Vec<MetaTexture>,
}

/// What can go wrong while reading, checking or writing a JAM archive.
#[derive(Clone, Copy, Debug, PartialEq, Eq, Structural)]
pub enum JamError {
    /// A 16-bit read past the end of the buffer.
    ReadOutOfRange { offset: usize },
    /// A 16-bit write past the end of the buffer.
    WriteOutOfRange { offset: usize },
    /// The input file is empty.
    FileTooSmall,
    /// Fewer than 4 bytes: no room for the header.
    HeaderTooSmall,
    /// The header gives a canvas height of 0.
    ZeroCanvasHeight,
    /// The texture records do not fit in the buffer.
    HeadersTruncated,
    /// A texture record gives a haze palette of more than 256 entries.
    PaletteQuarterTooLarge { texture: usize, qps: usize },
    /// The palettes and the canvas do not fit in the buffer.
    StreamTruncated { num_textures: u16, canvas_h: u16, len: usize },
    /// Metadata without any texture.
    NoTextures,
    /// A metadata texture with an empty region, a region past the right edge
    /// of the canvas, or a palette of more than 256 entries.
    InvalidTexture { texture: usize },
    /// A metadata palette whose length is not the haze palette size.
    PaletteSizeMismatch { texture: usize, got: usize, expected: usize },
    /// Not as many images as metadata textures.
    TextureCountMismatch,
    /// An image that uses more than 256 distinct colours.
    TooManyColors { texture: usize, count: usize },
    /// A palette whose length differs from its haze palette size.
    InvalidPaletteSize,
    /// An image whose pixel count is not the texture's width times height.
    ImageSizeMismatch { texture: usize, len: usize, width: usize, height: usize },
    /// A local palette index that is not below the haze palette size.
    IndexOutOfRange { texture: usize, x: usize, y: usize, index: usize, qps: usize },
    /// RGBA data whose length is not a multiple of 4.
    RgbaLength,
    /// The PNG encoder refused the image.
    PngEncoding,
    /// The PNG decoder could not read the image.
    PngDecoding,
    /// A PNG image whose colour type is not indexed.
    PngNotIndexed,
    /// An indexed PNG image whose bit depth is not 8.
    PngBitDepth,
    /// A decoded PNG frame that does not hold one byte per pixel.
    PngPixelCount,
    /// A metadata file whose lines do not follow its format.
    MetaSyntax,
    /// A name in a metadata file that is not UTF-8.
    NameNotUtf8,
    /// A PNG image whose size is not that of its texture.
    PngDimensionMismatch { texture: usize, width: usize, height: usize },
}

} // verus!
