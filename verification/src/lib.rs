//! Reading, writing and converting `.JAM` texture archives of the game *Grand Prix 2*.
//!
//! The decrypted layout is a small header, one 32-byte record per texture, the
//! concatenated local palettes, then a 256-wide canvas of palette indices.
//! The functions here are verified against a mathematical model of that layout;
//! the calls into the `png` crate and into std's `String::from_utf8` are trusted,
//! each under a contract stated where it is made.

pub mod bytes;
pub mod canvas;
pub mod crypt;
pub mod editor;
pub mod encode;
pub mod export;
pub mod import;
pub mod meta;
pub mod metatext;
pub mod names;
pub mod palettize;
pub mod parse;
pub mod png;
pub mod quantize;
pub mod roundtrip;
pub mod text;
pub mod types;

pub use crate::canvas::{
    canvas_to_global_indices, extract_texture_image, is_consistent, local_to_global_indices,
    texture_palette_offset,
};
pub use crate::crypt::decrypt_encrypt_jam;
pub use crate::editor::{can_encode_parsed, decode_for_editor, editor_bytes_fit, encode_parsed_global};
pub use crate::encode::{can_encode, encode};
pub use crate::export::{
    can_convert_to_global, export_fits, export_zip_files, export_zip_texture, global_to_local_indices,
    zip_export_fits,
    texture_skip_reason, SkipReason,
};
pub use crate::import::{import_archive, import_images};
pub use crate::metatext::{
    meta_file_fits, meta_file_from_parsed, meta_textures_from_file, read_meta_file, write_meta_file, JamMetaFile,
    MetaFileTexture,
};
pub use crate::meta::{check_meta_textures, meta_bottoms_fit, meta_fits, meta_from_parsed, validate_meta};
pub use crate::parse::{decode_jam_bytes, parse_jam_decrypted};
pub use crate::quantize::quantize_rgba_to_indices;
pub use crate::types::{JamError, JamMeta, JamParsed, JamTexture, MetaTexture, CANVAS_W};
