//! Importing an archive from its metadata and the exported PNG images of its
//! textures, which hold local indices into each texture's haze-0 palette.

use vstd::prelude::*;
use crate::canvas::{
    canvas_to_global_indices, global_canvas, global_conversion_in_bounds, local_to_global_indices,
    local_to_global_pixel, palette_offset, texture_image,
};
use crate::crypt::{decrypt_encrypt_jam, jam_crypt, lemma_jam_crypt_involution};
use crate::editor::parsed_globally;
use crate::encode::{encode, encode_error, jam_layout, local_images, meta_records};
use crate::export::lemma_global_local_roundtrip;
use crate::meta::{checked_meta, lemma_checked_meta_encodes, lemma_checked_meta_facts};
use crate::palettize::{image_views, local_image, repalettized};
use crate::parse::{jam_parse_error, jam_parsed_from, parse_jam_decrypted};
use crate::png::{decode_indexed_png_from_bytes, indexed_png, indexed_png8, read_indexed_png8};
use crate::roundtrip::{
    decodable_meta, encoded_plain, layout_hyps, layout_texture_facts, lemma_encode_decode_layout,
    lemma_encode_decode_roundtrip, lemma_roundtrip_parses,
};
use crate::types::{JamError, JamMeta, JamParsed, MetaTexture};

verus! {

/// The global-indexed image that the local indices `px` stand for under the
/// haze-0 palette of metadata texture `mt`.
pub open spec fn imported_image(mt: MetaTexture, px: Seq<u8>) -> Seq<u8> {
    Seq::new(px.len(), |i: int| local_to_global_pixel(px[i], mt.palette@, mt.tx.quarter_palette_size as nat))
}

/// What reading the PNG image `png` gives: as an 8-bit indexed image when
/// `eight_bit`, else as an indexed image of any bit depth.
pub open spec fn import_png(png: Seq<u8>, eight_bit: bool) -> Result<(Seq<u8>, u32, u32), JamError> {
    if eight_bit {
        indexed_png8(png)
    } else {
        indexed_png(png)
    }
}

/// What importing the PNG image `png` of texture number `t`, with metadata `mt`,
/// gives: the global-indexed image, or the error of reading the PNG, or the
/// error of an image whose size is not that of the texture.
pub open spec fn import_texture(mt: MetaTexture, png: Seq<u8>, t: int, eight_bit: bool) -> Result<Seq<u8>, JamError> {
    match import_png(png, eight_bit) {
        Err(e) => Err(e),
        Ok((px, w, h)) => if w != mt.tx.width || h != mt.tx.height {
            Err(JamError::PngDimensionMismatch { texture: t as usize, width: w as usize, height: h as usize })
        } else {
            Ok(imported_image(mt, px))
        },
    }
}

/// The error of the first of the first `n` textures whose image cannot be imported.
pub open spec fn first_import_error(mts: Seq<MetaTexture>, pngs: Seq<Seq<u8>>, n: nat, eight_bit: bool) -> Option<JamError>
    decreases n,
{
    if n == 0 {
        None
    } else {
        match first_import_error(mts, pngs, (n - 1) as nat, eight_bit) {
            Some(e) => Some(e),
            None => match import_texture(mts[n - 1], pngs[n - 1], n - 1, eight_bit) {
                Err(e) => Some(e),
                Ok(_) => None,
            },
        }
    }
}

/// The error that importing the images `pngs` of the textures `mts` reports:
/// a count that differs, then the first texture whose image fails.
pub open spec fn import_images_error(mts: Seq<MetaTexture>, pngs: Seq<Seq<u8>>, eight_bit: bool) -> Option<JamError> {
    if pngs.len() != mts.len() {
        Some(JamError::TextureCountMismatch)
    } else {
        first_import_error(mts, pngs, mts.len(), eight_bit)
    }
}

/// The global-indexed images imported from `pngs`, one per texture of `mts`.
pub open spec fn imported_images(mts: Seq<MetaTexture>, pngs: Seq<Seq<u8>>, eight_bit: bool) -> Seq<Seq<u8>> {
    Seq::new(mts.len(), |t: int| match import_texture(mts[t], pngs[t], t, eight_bit) {
        Ok(g) => g,
        Err(_) => Seq::empty(),
    })
}

proof fn lemma_first_import_error_stable(mts: Seq<MetaTexture>, pngs: Seq<Seq<u8>>, a: nat, b: nat, eight_bit: bool)
    requires
        a <= b,
        first_import_error(mts, pngs, a, eight_bit) is Some,
    ensures
        first_import_error(mts, pngs, b, eight_bit) == first_import_error(mts, pngs, a, eight_bit),
    decreases b - a,
{
    if a < b {
        lemma_first_import_error_stable(mts, pngs, a, (b - 1) as nat, eight_bit);
    }
}

/// Reads the PNG image `data`: as an 8-bit indexed image when `eight_bit`, else
/// as an indexed image of any bit depth.
fn read_png(data: &[u8], eight_bit: bool) -> (r: Result<(Vec<u8>, usize, usize), JamError>)
    ensures
        match r {
            Ok((px, w, h)) => import_png(data@, eight_bit)
                == Ok::<(Seq<u8>, u32, u32), JamError>((px@, w as u32, h as u32))
                && w <= u32::MAX && h <= u32::MAX,
            Err(e) => import_png(data@, eight_bit) == Err::<(Seq<u8>, u32, u32), JamError>(e),
        },
{
    if eight_bit {
        read_indexed_png8(data)
    } else {
        match decode_indexed_png_from_bytes(data) {
            Ok((px, w, h)) => Ok((px, w as usize, h as usize)),
            Err(e) => Err(e),
        }
    }
}

/// Reads the indexed PNG image of every texture of `meta` (`pngs[t]` for texture
/// `t`; 8-bit only when `eight_bit`), checks that it has the texture's size, and
/// maps its local indices to global ones through the texture's haze-0 palette.
pub fn import_images(meta: &JamMeta, pngs: &[Vec<u8>], eight_bit: bool) -> (r: Result<Vec<Vec<u8>>, JamError>)
    ensures
        match r {
            Ok(imgs) => import_images_error(meta.textures@, image_views(pngs@), eight_bit) is None
                && image_views(imgs@) == imported_images(meta.textures@, image_views(pngs@), eight_bit),
            Err(e) => import_images_error(meta.textures@, image_views(pngs@), eight_bit) == Some(e),
        },
{
    let ghost mts = meta.textures@;
    let ghost pv = image_views(pngs@);
    let n = meta.textures.len();
    if pngs.len() != n {
        return Err(JamError::TextureCountMismatch);
    }
    let mut images: Vec<Vec<u8>> = Vec::with_capacity(n);
    let mut t: usize = 0;
    while t < n
        invariant
            mts == meta.textures@,
            pv == image_views(pngs@),
            n == mts.len(),
            n == pngs@.len(),
            t <= n,
            first_import_error(mts, pv, t as nat, eight_bit) is None,
            images@.len() == t,
            forall|k: int| 0 <= k < t ==> (#[trigger] images@[k])@ == imported_images(mts, pv, eight_bit)[k],
        decreases n - t,
    {
        assert(pv[t as int] == pngs@[t as int]@);
        let (px, w, h) = match read_png(pngs[t].as_slice(), eight_bit) {
            Ok(f) => f,
            Err(e) => {
                proof {
                    lemma_first_import_error_stable(mts, pv, (t + 1) as nat, n as nat, eight_bit);
                }
                return Err(e);
            },
        };
        let mt = &meta.textures[t];
        if w != mt.tx.width as usize || h != mt.tx.height as usize {
            proof {
                lemma_first_import_error_stable(mts, pv, (t + 1) as nat, n as nat, eight_bit);
            }
            return Err(JamError::PngDimensionMismatch { texture: t, width: w, height: h });
        }
        let g = local_to_global_indices(px.as_slice(), mt.palette.as_slice(), mt.tx.quarter_palette_size as usize);
        assert(g@ =~= imported_image(mts[t as int], px@));
        images.push(g);
        t = t + 1;
    }
    assert(image_views(images@) =~= imported_images(mts, pv, eight_bit));
    Ok(images)
}

/// The error that importing an archive from `meta` and the images `pngs` reports:
/// that of reading the images, then that of encoding them.
pub open spec fn import_error(meta: JamMeta, pngs: Seq<Seq<u8>>) -> Option<JamError> {
    match import_images_error(meta.textures@, pngs, false) {
        Some(e) => Some(e),
        None => encode_error(meta, imported_images(meta.textures@, pngs, false)),
    }
}

/// `q` is the archive that decoding the encoded archive of `m` and the images
/// `imgs` gives under the name `stem`, its canvas converted to global indices.
pub open spec fn decoded_globally(q: JamParsed, m: JamMeta, imgs: Seq<Seq<u8>>, stem: Seq<char>) -> bool {
    let s = jam_layout(m, local_images(m, imgs));
    &&& jam_parse_error(s) is None
    &&& parsed_globally(q, stem, s)
}

/// The encoded archive of checked metadata parses.
proof fn lemma_checked_import_parses(meta: JamMeta, imgs: Seq<Seq<u8>>, m: JamMeta)
    requires
        checked_meta(meta),
        crate::encode::encode_requirements(meta, imgs),
        encode_error(meta, imgs) is None,
        repalettized(meta, imgs, m),
    ensures
        layout_hyps(meta, imgs, m),
        jam_parse_error(encoded_plain(m, imgs)) is None,
{
    lemma_checked_meta_facts(meta);
    assert forall|t: int| 0 <= t < meta.textures@.len()
        implies (#[trigger] meta.textures@[t]).tx.quarter_palette_size <= 256 by {}
    lemma_roundtrip_parses(meta, imgs, m);
}

/// Imports an archive for the editor: reads the images of the textures of the
/// checked metadata `meta` (global indices through each haze-0 palette), encodes
/// them, and decodes the result with its canvas converted to global indices.
pub fn import_archive(meta: &JamMeta, pngs: &[Vec<u8>]) -> (r: Result<JamParsed, JamError>)
    requires
        checked_meta(*meta),
    ensures
        ({
            let imgs = imported_images(meta.textures@, image_views(pngs@), false);
            match r {
                Ok(q) => import_error(*meta, image_views(pngs@)) is None
                    && exists|m: JamMeta| #[trigger] repalettized(*meta, imgs, m)
                        && decoded_globally(q, m, imgs, meta.stem@),
                Err(e) => import_error(*meta, image_views(pngs@)) == Some(e),
            }
        }),
{
    let ghost pv = image_views(pngs@);
    let images = match import_images(meta, pngs, false) {
        Ok(i) => i,
        Err(e) => return Err(e),
    };
    let ghost imgs = image_views(images@);
    proof {
        lemma_checked_meta_encodes(*meta, imgs);
        lemma_checked_meta_facts(*meta);
    }
    let (m, jam) = match encode(meta, images.as_slice()) {
        Ok(x) => x,
        Err(e) => return Err(e),
    };
    let ghost s = jam_layout(m, local_images(m, imgs));
    proof {
        lemma_checked_import_parses(*meta, imgs, m);
        lemma_jam_crypt_involution(s);
    }
    let mut data = jam;
    decrypt_encrypt_jam(data.as_mut_slice());
    assert(data@ == s);
    let mut parsed = match parse_jam_decrypted(meta.stem.clone(), data.as_slice()) {
        Ok(p) => p,
        Err(e) => return Err(e),
    };
    let ghost raw = parsed;
    proof {
        lemma_encode_decode_layout(*meta, imgs, m, jam_crypt(s), meta.stem@, raw);
    }
    let global = canvas_to_global_indices(&parsed);
    parsed.canvas = global;
    assert(jam_parsed_from(raw, meta.stem@, s));
    Ok(parsed)
}

/// Importing the images that export wrote gives back, for every texture, the
/// global-indexed image that was exported: when each PNG reads as an indexed
/// image of the texture's size whose indices are the positions of the exported
/// pixels in the texture's haze-0 palette (which holds every one of them), and the
/// rectangles lie within the canvas without overlapping.
pub proof fn lemma_import_export_roundtrip(meta: JamMeta, pngs: Seq<Seq<u8>>, exported: Seq<Seq<u8>>, m: JamMeta, q: JamParsed)
    requires
        checked_meta(meta),
        decodable_meta(meta),
        pngs.len() == meta.textures@.len(),
        exported.len() == meta.textures@.len(),
        forall|t: int| 0 <= t < meta.textures@.len() ==> {
            let pal = meta.textures@[t].palette@;
            &&& (forall|i: int| 0 <= i < exported[t].len() ==> pal.contains(#[trigger] exported[t][i]))
            &&& indexed_png(#[trigger] pngs[t]) == Ok::<(Seq<u8>, u32, u32), JamError>((
                local_image(pal, exported[t]),
                meta.textures@[t].tx.width as u32,
                meta.textures@[t].tx.height as u32,
            ))
        },
        import_error(meta, pngs) is None,
        repalettized(meta, imported_images(meta.textures@, pngs, false), m),
        decoded_globally(q, m, imported_images(meta.textures@, pngs, false), meta.stem@),
    ensures
        q.textures@.len() == meta.textures@.len(),
        forall|t: int| 0 <= t < q.textures@.len()
            ==> texture_image(q.canvas@, #[trigger] q.textures@[t]) == exported[t],
{
    let n = meta.textures@.len();
    let imgs = imported_images(meta.textures@, pngs, false);
    lemma_checked_meta_facts(meta);
    assert forall|t: int| 0 <= t < n implies #[trigger] imgs[t] == exported[t] by {
        let mt = meta.textures@[t];
        assert(indexed_png(pngs[t]) == Ok::<(Seq<u8>, u32, u32), JamError>((
            local_image(mt.palette@, exported[t]), mt.tx.width as u32, mt.tx.height as u32)));
        assert(import_texture(mt, pngs[t], t, false) == Ok::<Seq<u8>, JamError>(imported_image(mt, local_image(mt.palette@, exported[t]))));
        lemma_global_local_roundtrip(exported[t], mt.palette@);
        assert(imgs[t] =~= exported[t]);
    }
    let s = jam_layout(m, local_images(m, imgs));
    let raw = choose|raw: JamParsed| #[trigger] jam_parsed_from(raw, meta.stem@, s) && {
        &&& q.stem@ == raw.stem@
        &&& q.num_textures == raw.num_textures
        &&& q.canvas_h == raw.canvas_h
        &&& q.textures@ == raw.textures@
        &&& q.palette_data@ == raw.palette_data@
        &&& q.canvas@ == global_canvas(raw.textures@, raw.palette_data@, raw.canvas@, raw.textures@.len())
    };
    lemma_jam_crypt_involution(s);
    lemma_encode_decode_roundtrip(meta, imgs, m, jam_crypt(s), meta.stem@, raw);
}

} // verus!
