//! Indexed PNG images of single textures.

use vstd::prelude::*;
use crate::canvas::{extract_texture_image, palette_offset, rows_within, texture_image, texture_palette_offset};
use crate::names::{png_file_name, png_file_name_spec};
use crate::types::{JamError, JamParsed, JamTexture};

verus! {

#[verifier::external_type_specification]
#[verifier::external_body]
pub struct ExPngEncodingError(::png::EncodingError);

#[verifier::external_type_specification]
#[verifier::external_body]
pub struct ExPngDecodingError(::png::DecodingError);

/// Whether the PNG image `data` declares the indexed colour type, and its bit
/// depth, as the `png` crate's decoder reads its header; `None` when the decoder
/// cannot read the header.
pub uninterp spec fn png_header(data: Seq<u8>) -> Option<(bool, u8)>;

/// The first frame of the PNG image `data` as the `png` crate's decoder gives it,
/// untransformed, with its width and height; `None` when decoding fails.
pub uninterp spec fn png_frame(data: Seq<u8>) -> Option<(Seq<u8>, u32, u32)>;

/// Reads the header of a PNG image with `png::Decoder::read_info` and tells
/// whether its colour type is `ColorType::Indexed`, with its `BitDepth` as the
/// number of bits. The contract names the answer.
#[verifier::external_body]
fn png_read_header(data: &[u8]) -> (r: Result<(bool, u8), ::png::DecodingError>)
    ensures
        match r {
            Ok(h) => png_header(data@) == Some(h),
            Err(_) => png_header(data@) is None,
        },
{
    let reader = ::png::Decoder::new(std::io::Cursor::new(data)).read_info()?;
    let info = reader.info();
    Ok((info.color_type == ::png::ColorType::Indexed, info.bit_depth as u8))
}

/// Decodes the first frame of a PNG image with `png::Decoder` (no transformations):
/// `read_info`, then `Reader::next_frame` into a buffer of `output_buffer_size`
/// bytes, cut to the frame's `buffer_size`. The contract names the result.
#[verifier::external_body]
fn png_read_frame(data: &[u8]) -> (r: Result<(Vec<u8>, u32, u32), ::png::DecodingError>)
    ensures
        match r {
            Ok((pixels, w, h)) => png_frame(data@) == Some((pixels@, w, h)),
            Err(_) => png_frame(data@) is None,
        },
{
    let mut reader = ::png::Decoder::new(std::io::Cursor::new(data)).read_info()?;
    let mut buf = vec![0u8; reader.output_buffer_size().unwrap_or(0)];
    let out = reader.next_frame(&mut buf)?;
    buf.truncate(out.buffer_size());
    Ok((buf, out.width, out.height))
}

/// What decoding the indexed PNG image `data` gives: its first frame, or the
/// error for an unreadable image or one of another colour type.
pub open spec fn indexed_png(data: Seq<u8>) -> Result<(Seq<u8>, u32, u32), JamError> {
    match png_header(data) {
        None => Err(JamError::PngDecoding),
        Some((indexed, _)) => if !indexed {
            Err(JamError::PngNotIndexed)
        } else {
            match png_frame(data) {
                None => Err(JamError::PngDecoding),
                Some(f) => Ok(f),
            }
        },
    }
}

/// What reading the 8-bit indexed PNG image `data` gives: its first frame, with
/// one byte per pixel, or the first check that fails.
pub open spec fn indexed_png8(data: Seq<u8>) -> Result<(Seq<u8>, u32, u32), JamError> {
    match png_header(data) {
        None => Err(JamError::PngDecoding),
        Some((indexed, depth)) => if !indexed {
            Err(JamError::PngNotIndexed)
        } else if depth != 8 {
            Err(JamError::PngBitDepth)
        } else {
            match png_frame(data) {
                None => Err(JamError::PngDecoding),
                Some((px, w, h)) => if px.len() != w * h {
                    Err(JamError::PngPixelCount)
                } else {
                    Ok((px, w, h))
                },
            }
        },
    }
}

/// Decodes an indexed PNG image into its palette indices, width and height;
/// images of another colour type are refused.
pub fn decode_indexed_png_from_bytes(data: &[u8]) -> (r: Result<(Vec<u8>, u32, u32), JamError>)
    ensures
        match r {
            Ok((pixels, w, h)) => indexed_png(data@) == Ok::<(Seq<u8>, u32, u32), JamError>((pixels@, w, h)),
            Err(e) => indexed_png(data@) == Err::<(Seq<u8>, u32, u32), JamError>(e),
        },
{
    match png_read_header(data) {
        Ok((true, _)) => {},
        Ok((false, _)) => return Err(JamError::PngNotIndexed),
        Err(_) => return Err(JamError::PngDecoding),
    }
    match png_read_frame(data) {
        Ok(frame) => Ok(frame),
        Err(_) => Err(JamError::PngDecoding),
    }
}

/// Reads an 8-bit indexed PNG image into its palette indices, width and height.
/// Refused, in this order: an unreadable header, another colour type, another bit
/// depth, an undecodable frame, and a frame that does not hold one byte per pixel.
pub fn read_indexed_png8(data: &[u8]) -> (r: Result<(Vec<u8>, usize, usize), JamError>)
    ensures
        match r {
            Ok((pixels, w, h)) => indexed_png8(data@)
                == Ok::<(Seq<u8>, u32, u32), JamError>((pixels@, w as u32, h as u32))
                && pixels@.len() == w * h && w <= u32::MAX && h <= u32::MAX,
            Err(e) => indexed_png8(data@) == Err::<(Seq<u8>, u32, u32), JamError>(e),
        },
{
    match png_read_header(data) {
        Ok((true, 8)) => {},
        Ok((false, _)) => return Err(JamError::PngNotIndexed),
        Ok((true, _)) => return Err(JamError::PngBitDepth),
        Err(_) => return Err(JamError::PngDecoding),
    }
    let (pixels, w, h) = match png_read_frame(data) {
        Ok(frame) => frame,
        Err(_) => return Err(JamError::PngDecoding),
    };
    proof {
        assert((w as int) * (h as int) <= 0xffff_ffff * 0xffff_ffff) by (nonlinear_arith)
            requires w <= 0xffff_ffffu32, h <= 0xffff_ffffu32;
    }
    let count: u64 = (w as u64) * (h as u64);
    if pixels.len() as u64 != count {
        return Err(JamError::PngPixelCount);
    }
    Ok((pixels, w as usize, h as usize))
}

/// The bytes of the 8-bit indexed PNG image of `width` × `height` pixels `indices`
/// with the palette `palette`, as the `png` crate's encoder writes them; `None`
/// when the encoder refuses the image.
pub uninterp spec fn png_indexed(indices: Seq<u8>, width: u32, height: u32, palette: Seq<u8>) -> Option<Seq<u8>>;

/// The same with the transparency table `trns` written as well.
pub uninterp spec fn png_indexed_trns(
    indices: Seq<u8>,
    width: u32,
    height: u32,
    palette: Seq<u8>,
    trns: Seq<u8>,
) -> Option<Seq<u8>>;

/// An 8-bit indexed image of `width` × `height` pixels `indices` can be encoded:
/// it is not empty and holds one index per pixel.
pub open spec fn png_encodable(indices: Seq<u8>, width: u32, height: u32) -> bool {
    width > 0 && height > 0 && indices.len() == width * height
}

/// The big-endian bytes of `v`.
pub open spec fn be32(v: u32) -> Seq<u8> {
    seq![(v / 0x100_0000) as u8, ((v / 0x1_0000) % 256) as u8, ((v / 256) % 256) as u8, (v % 256) as u8]
}

/// The chunks that the `png` crate's encoder writes first for an 8-bit indexed
/// image of `width` × `height` pixels with the 768-byte palette `palette` and, when
/// given, the 256-byte transparency table `trns` (CRCs left out):
/// - the PNG signature;
/// - IHDR: length 13, the width and height big-endian, bit depth 8, colour type 3
///   (indexed), no interlacing;
/// - PLTE holding `palette`;
/// - tRNS holding `trns` when there is one;
/// - then the first IDAT chunk of the image data.
pub open spec fn indexed_png_chunks(bytes: Seq<u8>, width: u32, height: u32, palette: Seq<u8>, trns: Option<Seq<u8>>) -> bool {
    let idat_at: int = if trns is Some { 1085 } else { 817 };
    &&& bytes.len() >= idat_at + 4
    &&& bytes.subrange(0, 8) == seq![137u8, 80, 78, 71, 13, 10, 26, 10]
    &&& bytes.subrange(8, 16) == seq![0u8, 0, 0, 13, 73, 72, 68, 82]
    &&& bytes.subrange(16, 20) == be32(width)
    &&& bytes.subrange(20, 24) == be32(height)
    &&& bytes.subrange(24, 29) == seq![8u8, 3, 0, 0, 0]
    &&& bytes.subrange(33, 41) == seq![0u8, 0, 3, 0, 80, 76, 84, 69]
    &&& bytes.subrange(41, 809) == palette
    &&& (trns matches Some(t) ==> bytes.subrange(813, 821) == seq![0u8, 0, 1, 0, 116, 82, 78, 83]
        && bytes.subrange(821, 1077) == t)
    &&& bytes.subrange(idat_at, idat_at + 4) == seq![73u8, 68, 65, 84]
}

/// Encodes an 8-bit indexed PNG image with `png::Encoder` (colour type
/// `Indexed`, depth `Eight`, PLTE chunk `palette`), writing the header, the image
/// data and, when the writer is dropped, the end chunk into a vector.
///
/// The contract names the bytes (`png_indexed`): encoding depends on the arguments
/// alone. Of their form it states the leading chunks (`indexed_png_chunks`), not
/// the compressed image data or the CRCs. Encoding fails exactly when the width or
/// the height is 0 (`Writer::init`) or the image data is not one byte per pixel
/// (`write_image_data`). The palette is the 768 bytes of 256 colours, and the
/// width and the byte count that `write_image_data` computes fit in a `usize`
/// (`raw_row_length_from_width` adds 1 to the width).
#[verifier::external_body]
fn png_encode_indexed(indices: &[u8], width: u32, height: u32, palette: &[u8])
    -> (r: Result<Vec<u8>, ::png::EncodingError>)
    requires
        palette@.len() == 768,
        width < u32::MAX,
        width * height <= usize::MAX,
    ensures
        r is Ok <==> png_encodable(indices@, width, height),
        r matches Ok(bytes) ==> indexed_png_chunks(bytes@, width, height, palette@, None),
        match r {
            Ok(bytes) => png_indexed(indices@, width, height, palette@) == Some(bytes@),
            Err(_) => png_indexed(indices@, width, height, palette@) is None,
        },
{
    let mut out: Vec<u8> = Vec::new();
    {
        let mut encoder = ::png::Encoder::new(&mut out, width, height);
        encoder.set_color(::png::ColorType::Indexed);
        encoder.set_depth(::png::BitDepth::Eight);
        encoder.set_palette(palette.to_vec());
        let mut writer = encoder.write_header()?;
        writer.write_image_data(indices)?;
    }
    Ok(out)
}

/// As `png_encode_indexed`, with `Encoder::set_trns` also given the 256-byte
/// tRNS chunk `trns`, which `encode_header` writes right after PLTE.
#[verifier::external_body]
fn png_encode_indexed_trns(indices: &[u8], width: u32, height: u32, palette: &[u8], trns: &[u8])
    -> (r: Result<Vec<u8>, ::png::EncodingError>)
    requires
        palette@.len() == 768,
        trns@.len() == 256,
        width < u32::MAX,
        width * height <= usize::MAX,
    ensures
        r is Ok <==> png_encodable(indices@, width, height),
        r matches Ok(bytes) ==> indexed_png_chunks(bytes@, width, height, palette@, Some(trns@)),
        match r {
            Ok(bytes) => png_indexed_trns(indices@, width, height, palette@, trns@) == Some(bytes@),
            Err(_) => png_indexed_trns(indices@, width, height, palette@, trns@) is None,
        },
{
    let mut out: Vec<u8> = Vec::new();
    {
        let mut encoder = ::png::Encoder::new(&mut out, width, height);
        encoder.set_color(::png::ColorType::Indexed);
        encoder.set_depth(::png::BitDepth::Eight);
        encoder.set_palette(palette.to_vec());
        encoder.set_trns(trns.to_vec());
        let mut writer = encoder.write_header()?;
        writer.write_image_data(indices)?;
    }
    Ok(out)
}

/// The transparency table of a transparent texture: entry 0 fully transparent,
/// every other entry opaque.
pub open spec fn transparency_table() -> Seq<u8> {
    Seq::new(256, |i: int| if i == 0 { 0u8 } else { 0xffu8 })
}

/// The PNG bytes of an indexed image, with the transparency table when `transparent`.
pub open spec fn indexed_png_bytes(indices: Seq<u8>, w: usize, h: usize, palette: Seq<u8>, transparent: bool) -> Option<Seq<u8>> {
    if transparent {
        png_indexed_trns(indices, w as u32, h as u32, palette, transparency_table())
    } else {
        png_indexed(indices, w as u32, h as u32, palette)
    }
}

/// Encodes `indices` (`w` × `h` palette indices) as an 8-bit indexed PNG with the
/// RGB palette `palette_rgb`; a transparent image makes palette entry 0 transparent.
pub fn encode_indexed_png_to_bytes(
    indices: &[u8],
    w: usize,
    h: usize,
    palette_rgb: &[u8; 768],
    transparent: bool,
) -> (r: Result<Vec<u8>, JamError>)
    requires
        (w as u32) < u32::MAX,
        (w as u32) * (h as u32) <= usize::MAX,
    ensures
        r is Ok <==> png_encodable(indices@, w as u32, h as u32),
        r matches Ok(bytes) ==> indexed_png_chunks(bytes@, w as u32, h as u32, palette_rgb@,
            if transparent { Some(transparency_table()) } else { None }),
        match r {
            Ok(bytes) => indexed_png_bytes(indices@, w, h, palette_rgb@, transparent) == Some(bytes@),
            Err(e) => e == JamError::PngEncoding
                && indexed_png_bytes(indices@, w, h, palette_rgb@, transparent) is None,
        },
{
    let res = if transparent {
        let mut trns: Vec<u8> = Vec::with_capacity(256);
        let mut i: usize = 0;
        while i < 256
            invariant
                i <= 256,
                trns@ =~= transparency_table().take(i as int),
            decreases 256 - i,
        {
            trns.push(if i == 0 { 0u8 } else { 0xffu8 });
            i = i + 1;
        }
        assert(trns@ =~= transparency_table());
        png_encode_indexed_trns(indices, w as u32, h as u32, palette_rgb.as_slice(), trns.as_slice())
    } else {
        png_encode_indexed(indices, w as u32, h as u32, palette_rgb.as_slice())
    };
    match res {
        Ok(bytes) => Ok(bytes),
        Err(_) => Err(JamError::PngEncoding),
    }
}

/// Byte `i` of the RGB palette that `build_palette` builds: colour channel `i % 3`
/// of the global colour that haze palette `haze` maps local index `i / 3` to, or 0
/// past the haze palette size.
pub open spec fn rgb_palette_byte(
    palette_data: Seq<u8>,
    pal_off: int,
    haze: int,
    qps: int,
    global_pal: Seq<u8>,
    i: int,
) -> u8 {
    if i / 3 < qps {
        global_pal[palette_data[pal_off + haze * qps + i / 3] * 3 + i % 3]
    } else {
        0
    }
}

/// The colour of entry `idx` of the RGB palette `pal`: its red, green and blue bytes.
pub open spec fn palette_colour(pal: Seq<u8>, idx: int) -> Seq<u8> {
    pal.subrange(3 * idx, 3 * idx + 3)
}

/// Entry `idx` of haze palette `haze` of the texture whose palettes start at `pal_off`.
pub open spec fn haze_entry(palette_data: Seq<u8>, pal_off: int, haze: int, qps: int, idx: int) -> u8 {
    palette_data[pal_off + haze * qps + idx]
}

/// In the RGB palette of a haze palette, entry `idx` below the haze palette size
/// is the global colour that the haze palette maps `idx` to, red, green and blue
/// each taken from the same channel; every byte past the haze palette is 0.
pub proof fn lemma_rgb_palette_colours(palette_data: Seq<u8>, pal_off: int, haze: int, qps: int, global_pal: Seq<u8>)
    requires
        0 <= qps <= 256,
        forall|idx: int| 0 <= idx < qps ==> 3 * #[trigger] haze_entry(palette_data, pal_off, haze, qps, idx) + 3
            <= global_pal.len(),
    ensures
        rgb_palette(palette_data, pal_off, haze, qps, global_pal).len() == 768,
        forall|idx: int| 0 <= idx < qps ==> #[trigger] palette_colour(rgb_palette(palette_data, pal_off, haze, qps, global_pal), idx)
            == palette_colour(global_pal, haze_entry(palette_data, pal_off, haze, qps, idx) as int),
        forall|i: int| 3 * qps <= i < 768 ==> #[trigger] rgb_palette(palette_data, pal_off, haze, qps, global_pal)[i] == 0,
{
    let rgb = rgb_palette(palette_data, pal_off, haze, qps, global_pal);
    assert forall|idx: int| 0 <= idx < qps implies #[trigger] palette_colour(rgb, idx)
        == palette_colour(global_pal, haze_entry(palette_data, pal_off, haze, qps, idx) as int) by {
        let g = haze_entry(palette_data, pal_off, haze, qps, idx) as int;
        assert forall|c: int| 0 <= c < 3 implies palette_colour(rgb, idx)[c] == palette_colour(global_pal, g)[c] by {
            assert((3 * idx + c) / 3 == idx);
            assert((3 * idx + c) % 3 == c);
            assert(rgb[3 * idx + c] == global_pal[g * 3 + c]);
        }
        assert(palette_colour(rgb, idx) =~= palette_colour(global_pal, g));
    }
    assert forall|i: int| 3 * qps <= i < 768 implies #[trigger] rgb[i] == 0 by {
        assert(i / 3 >= qps);
    }
}

/// Builds the 256-colour RGB palette of haze palette `haze` of the texture whose
/// palettes start at `pal_off`: local index `idx` gets the global colour that the
/// haze palette maps it to; entries past `qps` stay black.
pub fn build_palette(
    palette_data: &[u8],
    pal_off: usize,
    haze: usize,
    qps: usize,
    global_pal: &[u8],
) -> (rgb_pal: [u8; 768])
    requires
        qps <= 256,
        qps > 0 ==> pal_off + haze * qps + qps <= palette_data@.len(),
        forall|idx: int| 0 <= idx < qps ==> #[trigger] palette_data@[pal_off + haze * qps + idx] * 3 + 2
            < global_pal@.len(),
    ensures
        rgb_pal@ == Seq::new(768, |i: int| rgb_palette_byte(palette_data@, pal_off as int, haze as int,
            qps as int, global_pal@, i)),
        forall|idx: int| 0 <= idx < qps ==> #[trigger] palette_colour(rgb_pal@, idx)
            == palette_colour(global_pal@, haze_entry(palette_data@, pal_off as int, haze as int, qps as int, idx) as int),
        forall|i: int| 3 * qps <= i < 768 ==> #[trigger] rgb_pal@[i] == 0,
{
    let mut rgb_pal = [0u8; 768];
    let ghost spec_pal = Seq::new(768, |i: int| rgb_palette_byte(palette_data@, pal_off as int,
        haze as int, qps as int, global_pal@, i));
    if qps == 0 {
        assert(rgb_pal@ =~= spec_pal);
        return rgb_pal;
    }
    let len = palette_data.len();
    assert(pal_off + haze * qps + qps <= len);
    let base = pal_off + haze * qps;
    let mut idx: usize = 0;
    while idx < qps
        invariant
            0 < qps <= 256,
            base == pal_off + haze * qps,
            base + qps <= palette_data@.len(),
            palette_data@.len() <= usize::MAX,
            forall|idx: int| 0 <= idx < qps ==> #[trigger] palette_data@[pal_off + haze * qps + idx] * 3 + 2
                < global_pal@.len(),
            spec_pal == Seq::new(768, |i: int| rgb_palette_byte(palette_data@, pal_off as int,
                haze as int, qps as int, global_pal@, i)),
            idx <= qps,
            rgb_pal@.len() == 768,
            forall|i: int| 0 <= i < 3 * idx ==> #[trigger] rgb_pal@[i] == spec_pal[i],
            forall|i: int| 3 * idx <= i < 768 ==> #[trigger] rgb_pal@[i] == 0,
        decreases qps - idx,
    {
        let gp2_idx = palette_data[base + idx] as usize;
        assert(palette_data@[pal_off + haze * qps + idx] == palette_data@[base + idx]);
        rgb_pal[idx * 3] = global_pal[gp2_idx * 3];
        rgb_pal[idx * 3 + 1] = global_pal[gp2_idx * 3 + 1];
        rgb_pal[idx * 3 + 2] = global_pal[gp2_idx * 3 + 2];
        assert forall|i: int| 3 * idx <= i < 3 * idx + 3 implies #[trigger] rgb_pal@[i] == spec_pal[i] by {
            assert(i / 3 == idx && i % 3 == i - 3 * idx);
        }
        idx = idx + 1;
    }
    assert forall|i: int| 3 * qps <= i < 768 implies spec_pal[i] == 0 by {
        assert(i / 3 >= qps);
    }
    assert(rgb_pal@ =~= spec_pal);
    proof {
        assert forall|idx: int| 0 <= idx < qps implies 3 * #[trigger] haze_entry(palette_data@, pal_off as int,
            haze as int, qps as int, idx) + 3 <= global_pal@.len() by {
            assert(palette_data@[pal_off + haze * qps + idx] * 3 + 2 < global_pal@.len());
        }
        lemma_rgb_palette_colours(palette_data@, pal_off as int, haze as int, qps as int, global_pal@);
    }
    rgb_pal
}

/// The RGB palette that `build_palette` builds.
pub open spec fn rgb_palette(palette_data: Seq<u8>, pal_off: int, haze: int, qps: int, global_pal: Seq<u8>) -> Seq<u8> {
    Seq::new(768, |i: int| rgb_palette_byte(palette_data, pal_off, haze, qps, global_pal, i))
}

/// `bytes` is an exported indexed PNG of the region of `tx` whose colours come
/// from the haze palette `haze_pal`: its header gives the region's width and
/// height; its palette gives, for every local index below the haze palette size,
/// the global colour that `haze_pal` maps it to (red, green, blue); and it carries
/// the transparency table (entry 0 transparent, every other entry opaque) exactly
/// when the record is marked transparent.
pub open spec fn exported_png_facts(bytes: Seq<u8>, tx: JamTexture, haze_pal: Seq<u8>, global_pal: Seq<u8>) -> bool {
    &&& bytes.len() >= 821
    &&& bytes.subrange(16, 20) == be32(tx.width as u32)
    &&& bytes.subrange(20, 24) == be32(tx.height as u32)
    &&& forall|idx: int| 0 <= idx < haze_pal.len() ==> #[trigger] palette_colour(bytes.subrange(41, 809), idx)
        == palette_colour(global_pal, haze_pal[idx] as int)
    &&& (tx.transparent != 0 ==> {
        &&& bytes.len() >= 1077
        &&& bytes.subrange(813, 821) == seq![0u8, 0, 1, 0, 116, 82, 78, 83]
        &&& bytes[821] == 0
        &&& forall|i: int| 822 <= i < 1077 ==> #[trigger] bytes[i] == 255
    })
    &&& (tx.transparent == 0 ==> bytes.subrange(817, 821) == seq![73u8, 68, 65, 84])
}

/// The chunks that encoding writes, with a palette built from `haze_pal`, give the
/// facts of an exported PNG.
pub proof fn lemma_exported_png(bytes: Seq<u8>, tx: JamTexture, rgb: Seq<u8>, haze_pal: Seq<u8>, global_pal: Seq<u8>)
    requires
        rgb.len() == 768,
        indexed_png_chunks(bytes, tx.width as u32, tx.height as u32, rgb,
            if tx.transparent != 0 { Some(transparency_table()) } else { None }),
        forall|idx: int| 0 <= idx < haze_pal.len() ==> #[trigger] palette_colour(rgb, idx)
            == palette_colour(global_pal, haze_pal[idx] as int),
    ensures
        exported_png_facts(bytes, tx, haze_pal, global_pal),
{
    if tx.transparent != 0 {
        let t = bytes.subrange(821, 1077);
        assert(t == transparency_table());
        assert(bytes[821] == t[0]);
        assert forall|i: int| 822 <= i < 1077 implies #[trigger] bytes[i] == 255 by {
            assert(bytes[i] == t[i - 821]);
        }
    }
}

/// What exporting texture `tex_idx` of `p` with haze palette `haze` reads lies within `p`
/// and `global_pal`: the region on the canvas, the haze palette (at most 256 entries),
/// and the global colours it maps to.
pub open spec fn export_in_bounds(p: JamParsed, tex_idx: int, haze: int, global_pal: Seq<u8>) -> bool {
    let tx = p.textures@[tex_idx];
    let qps = tx.quarter_palette_size as int;
    let off = palette_offset(p.textures@, tex_idx as nat) as int;
    &&& 0 <= tex_idx < p.textures@.len()
    &&& off <= usize::MAX
    &&& rows_within(tx, p.canvas@.len() as int)
    &&& qps <= 256
    &&& qps > 0 ==> off + haze * qps + qps <= p.palette_data@.len()
    &&& forall|idx: int| 0 <= idx < qps ==> #[trigger] p.palette_data@[off + haze * qps + idx] * 3 + 2
        < global_pal.len()
}

/// Encode a single texture+haze combination as an indexed PNG, returning
/// the suggested filename and the raw PNG bytes.
pub fn export_texture_png(
    parsed: &JamParsed,
    tex_idx: usize,
    haze: usize,
    global_pal: &[u8],
) -> (r: Result<(String, Vec<u8>), JamError>)
    requires
        export_in_bounds(*parsed, tex_idx as int, haze as int, global_pal@),
    ensures
        ({
            let tx = parsed.textures@[tex_idx as int];
            let png = indexed_png_bytes(
                texture_image(parsed.canvas@, tx),
                tx.width as usize,
                tx.height as usize,
                rgb_palette(parsed.palette_data@, palette_offset(parsed.textures@, tex_idx as nat) as int,
                    haze as int, tx.quarter_palette_size as int, global_pal@),
                tx.transparent != 0,
            );
            match r {
                Ok((name, bytes)) => name@ == png_file_name_spec(parsed.stem@, tex_idx as nat)
                    && png == Some(bytes@),
                Err(e) => e == JamError::PngEncoding && png is None,
            }
        }),
        r matches Ok((_, bytes)) ==> {
            let tx = parsed.textures@[tex_idx as int];
            let qps = tx.quarter_palette_size as int;
            let start = palette_offset(parsed.textures@, tex_idx as nat) + haze * qps;
            exported_png_facts(bytes@, tx, Seq::new(qps as nat, |i: int| parsed.palette_data@[start + i]), global_pal@)
        },
{
    let tx = parsed.textures[tex_idx];
    let w = tx.width as usize;
    let h = tx.height as usize;
    let qps = tx.quarter_palette_size as usize;
    let transparent = tx.transparent != 0;
    let pal_off = texture_palette_offset(parsed, tex_idx);

    let img = extract_texture_image(parsed, tex_idx);
    let rgb_pal = build_palette(parsed.palette_data.as_slice(), pal_off, haze, qps, global_pal);
    proof {
        assert((w as u32) * (h as u32) <= 0xffff * 0xffff) by (nonlinear_arith)
            requires w as u32 <= 0xffff, h as u32 <= 0xffff;
    }
    let png_data = match encode_indexed_png_to_bytes(img.as_slice(), w, h, &rgb_pal, transparent) {
        Ok(bytes) => bytes,
        Err(e) => return Err(e),
    };
    proof {
        let start = pal_off + haze * qps;
        let hp = Seq::new(qps as nat, |i: int| parsed.palette_data@[start + i]);
        assert(pal_off == palette_offset(parsed.textures@, tex_idx as nat));
        assert forall|idx: int| 0 <= idx < hp.len() implies #[trigger] palette_colour(rgb_pal@, idx)
            == palette_colour(global_pal@, hp[idx] as int) by {
            assert(hp[idx] == haze_entry(parsed.palette_data@, pal_off as int, haze as int, qps as int, idx));
        }
        lemma_exported_png(png_data@, tx, rgb_pal@, hp, global_pal@);
    }
    let filename = png_file_name(parsed.stem.as_str(), tex_idx);
    Ok((filename, png_data))
}

} // verus!
