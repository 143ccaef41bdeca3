//! Deciding which textures can be exported, and exporting them with palettes
//! rebuilt from global indices.

use vstd::prelude::*;
use vstd::string::StringExecFns;
use crate::canvas::{
    extract_texture_image, global_conversion_in_bounds, lemma_palette_offset_monotone,
    local_to_global_pixel, palette_offset, texels_within, texture_image,
    texture_palette_offset,
};
use crate::names::{png_file_name, png_file_name_spec};
use crate::palettize::{first_position, is_first_index, lemma_first_index, local_image};
use crate::png::{
    build_palette, encode_indexed_png_to_bytes, export_in_bounds, exported_png_facts, haze_entry, indexed_png_bytes,
    lemma_exported_png, palette_colour, rgb_palette,
};
use crate::types::{JamError, JamParsed, JamTexture, CANVAS_W};

verus! {

/// Why a texture is left out of an export.
#[derive(Clone, Copy, Debug, PartialEq, Eq, Structural)]
pub enum SkipReason {
    /// An empty region, or one that leaves the canvas.
    InvalidGeometry,
    /// A haze palette that is empty or has more than 256 entries.
    InvalidPaletteSize,
}

/// Why texture `t` of `p` is left out of an export, if it is.
pub open spec fn texture_skip(p: JamParsed, t: int) -> Option<SkipReason> {
    let tx = p.textures@[t];
    if tx.width == 0 || tx.height == 0 || tx.left + tx.width > CANVAS_W || tx.top + tx.height > p.canvas_h {
        Some(SkipReason::InvalidGeometry)
    } else if tx.quarter_palette_size == 0 || tx.quarter_palette_size > 256 {
        Some(SkipReason::InvalidPaletteSize)
    } else {
        None
    }
}

/// Pixel (`x`, `y`) of the rectangle of `tx` lies on a canvas 256 pixels wide and
/// `canvas_h` rows tall.
pub open spec fn rect_pixel_inside(tx: JamTexture, canvas_h: int, x: int, y: int) -> bool {
    tx.left + x < 256 && tx.top + y < canvas_h
}

/// A texture is exported exactly when it has a haze palette of 1 to 256 entries
/// and a non-empty rectangle every pixel of which lies on the canvas.
pub proof fn lemma_texture_skip_inside(p: JamParsed, t: int)
    requires
        0 <= t < p.textures@.len(),
    ensures
        ({
            let tx = p.textures@[t];
            texture_skip(p, t) is None <==> {
                &&& 0 < tx.quarter_palette_size <= 256
                &&& tx.width > 0 && tx.height > 0
                &&& forall|x: int, y: int| 0 <= x < tx.width && 0 <= y < tx.height
                    ==> #[trigger] rect_pixel_inside(tx, p.canvas_h as int, x, y)
            }
        }),
{
    let tx = p.textures@[t];
    if tx.width > 0 && tx.height > 0 {
        if forall|x: int, y: int| 0 <= x < tx.width && 0 <= y < tx.height
            ==> #[trigger] rect_pixel_inside(tx, p.canvas_h as int, x, y) {
            assert(rect_pixel_inside(tx, p.canvas_h as int, tx.width - 1, tx.height - 1));
        }
    }
}

/// Why texture `tex_idx` of `parsed` is left out of an export: an empty region or
/// one that leaves the canvas, or else an empty or oversized haze palette.
pub fn texture_skip_reason(parsed: &JamParsed, tex_idx: usize) -> (r: Option<SkipReason>)
    requires
        tex_idx < parsed.textures@.len(),
    ensures
        r == texture_skip(*parsed, tex_idx as int),
        ({
            let tx = parsed.textures@[tex_idx as int];
            r is None <==> {
                &&& 0 < tx.quarter_palette_size <= 256
                &&& tx.width > 0 && tx.height > 0
                &&& forall|x: int, y: int| 0 <= x < tx.width && 0 <= y < tx.height
                    ==> #[trigger] rect_pixel_inside(tx, parsed.canvas_h as int, x, y)
            }
        }),
{
    proof {
        lemma_texture_skip_inside(*parsed, tex_idx as int);
    }
    let tx = &parsed.textures[tex_idx];
    let w = tx.width as usize;
    let h = tx.height as usize;
    let x = tx.left as usize;
    let y = tx.top as usize;
    let qps = tx.quarter_palette_size as usize;
    if w == 0 || h == 0 || x + w > CANVAS_W || y + h > parsed.canvas_h as usize {
        return Some(SkipReason::InvalidGeometry);
    }
    if qps == 0 || qps > 256 {
        return Some(SkipReason::InvalidPaletteSize);
    }
    None
}

/// Whether converting the canvas of `parsed` to global indices reads only within `parsed`.
pub fn can_convert_to_global(parsed: &JamParsed) -> (b: bool)
    ensures
        b == global_conversion_in_bounds(*parsed),
{
    let n = parsed.textures.len();
    let pal_len = parsed.palette_data.len();
    let canvas_len = parsed.canvas.len();
    let ghost txs = parsed.textures@;
    let mut off: usize = 0;
    let mut past_end = false;
    let mut t: usize = 0;
    while t < n
        invariant
            txs == parsed.textures@,
            n == txs.len(),
            pal_len == parsed.palette_data@.len(),
            canvas_len == parsed.canvas@.len(),
            t <= n,
            past_end ==> palette_offset(txs, t as nat) > pal_len,
            !past_end ==> off == palette_offset(txs, t as nat) && off <= pal_len,
            forall|k: int| 0 <= k < t && (#[trigger] txs[k]).quarter_palette_size > 0 ==> {
                &&& palette_offset(txs, k as nat) + txs[k].quarter_palette_size <= pal_len
                &&& (txs[k].height > 0 ==> texels_within(txs[k], canvas_len as int))
            },
        decreases n - t,
    {
        let tx = &parsed.textures[t];
        let qps = tx.quarter_palette_size as usize;
        if qps > 0 {
            if past_end || qps > pal_len - off {
                proof {
                    assert(txs[t as int].quarter_palette_size > 0);
                }
                return false;
            }
            if tx.height > 0 && tx.width > 0 {
                let last = (tx.top as usize + tx.height as usize - 1) * CANVAS_W + tx.left as usize
                    + tx.width as usize;
                if last > canvas_len {
                    proof {
                        assert(txs[t as int].quarter_palette_size > 0);
                    }
                    return false;
                }
            }
        }
        if !past_end {
            if qps * 4 > pal_len - off {
                past_end = true;
            } else {
                off = off + qps * 4;
            }
        } else {
            proof {
                lemma_palette_offset_monotone(txs, t as nat, (t + 1) as nat);
            }
        }
        t = t + 1;
    }
    true
}

/// Whether exporting texture `tex_idx` of `parsed` with haze palette `haze` and
/// the global palette `global_pal` reads only within them.
pub fn export_fits(parsed: &JamParsed, tex_idx: usize, haze: usize, global_pal: &[u8]) -> (b: bool)
    ensures
        b == export_in_bounds(*parsed, tex_idx as int, haze as int, global_pal@),
{
    if tex_idx >= parsed.textures.len() {
        return false;
    }
    let ghost txs = parsed.textures@;
    let pal_len = parsed.palette_data.len();
    let mut off: usize = 0;
    let mut t: usize = 0;
    while t < tex_idx
        invariant
            txs == parsed.textures@,
            tex_idx < txs.len(),
            t <= tex_idx,
            off == palette_offset(txs, t as nat),
        decreases tex_idx - t,
    {
        let q = parsed.textures[t].quarter_palette_size as usize;
        if q * 4 > usize::MAX - off {
            proof {
                lemma_palette_offset_monotone(txs, (t + 1) as nat, tex_idx as nat);
            }
            return false;
        }
        off = off + q * 4;
        t = t + 1;
    }
    let tx = &parsed.textures[tex_idx];
    if tx.height > 0 {
        let last = (tx.top as usize + tx.height as usize - 1) * CANVAS_W + tx.left as usize + tx.width as usize;
        if last > parsed.canvas.len() {
            return false;
        }
    }
    let qps = tx.quarter_palette_size as usize;
    if qps > 256 {
        return false;
    }
    if qps == 0 {
        return true;
    }
    if off > pal_len || haze > (pal_len - off) / qps {
        proof {
            if off <= pal_len {
                assert(haze * qps + qps > pal_len - off) by (nonlinear_arith)
                    requires haze > (pal_len - off) / qps as int, qps > 0, pal_len - off >= 0;
            }
        }
        return false;
    }
    proof {
        assert(haze * qps <= pal_len - off) by (nonlinear_arith)
            requires haze <= (pal_len - off) / qps as int, qps > 0, pal_len - off >= 0;
    }
    if qps > pal_len - off - haze * qps {
        return false;
    }
    let base = off + haze * qps;
    let gl = global_pal.len();
    let mut idx: usize = 0;
    while idx < qps
        invariant
            txs == parsed.textures@,
            tex_idx < txs.len(),
            qps == txs[tex_idx as int].quarter_palette_size,
            off == palette_offset(txs, tex_idx as nat),
            base == off + haze * qps,
            base + qps <= parsed.palette_data@.len(),
            pal_len == parsed.palette_data@.len(),
            gl == global_pal@.len(),
            idx <= qps,
            forall|k: int| 0 <= k < idx ==> #[trigger] parsed.palette_data@[off + haze * qps + k] * 3 + 2
                < global_pal@.len(),
        decreases qps - idx,
    {
        let g = parsed.palette_data[base + idx] as usize;
        assert(parsed.palette_data@[off + haze * qps + idx] == parsed.palette_data@[base + idx]);
        if g * 3 + 2 >= gl {
            return false;
        }
        idx = idx + 1;
    }
    true
}

/// Replaces every global index of `img_global` by its position in `palette`, or
/// by 0 when the palette does not hold it.
pub fn global_to_local_indices(img_global: &[u8], palette: &[u8]) -> (img_local: Vec<u8>)
    ensures
        img_local@ == local_image(palette@, img_global@),
{
    let mut img_local: Vec<u8> = Vec::with_capacity(img_global.len());
    let mut i: usize = 0;
    while i < img_global.len()
        invariant
            i <= img_global@.len(),
            img_local@ =~= local_image(palette@, img_global@).take(i as int),
        decreases img_global@.len() - i,
    {
        let g = img_global[i];
        let found: usize = match first_position(palette, g) {
            Some(k) => {
                proof {
                    lemma_first_index(palette@, g, k as int);
                }
                k
            },
            None => 0,
        };
        img_local.push(found as u8);
        i = i + 1;
    }
    assert(img_local@ =~= local_image(palette@, img_global@));
    img_local
}

/// Mapping global indices to their positions in a palette of at most 256 entries and
/// back through that palette gives the image back, when the palette holds every index used.
pub proof fn lemma_global_local_roundtrip(img: Seq<u8>, palette: Seq<u8>)
    requires
        palette.len() <= 256,
        forall|i: int| 0 <= i < img.len() ==> palette.contains(#[trigger] img[i]),
    ensures
        Seq::new(img.len(), |i: int| local_to_global_pixel(local_image(palette, img)[i], palette, palette.len()))
            == img,
{
    assert forall|i: int| 0 <= i < img.len() implies #[trigger] local_to_global_pixel(
        local_image(palette, img)[i], palette, palette.len()) == img[i] by {
        let g = img[i];
        assert(palette.contains(g));
        let k = choose|k: int| 0 <= k < palette.len() && palette[k] == g;
        crate::palettize::lemma_min_occurrence(palette, g, k);
        let f = choose|f: int| 0 <= f <= k && palette[f] == g && forall|j: int| 0 <= j < f ==> palette[j] != g;
        assert(is_first_index(palette, g, f));
        lemma_first_index(palette, g, f);
    }
    assert(Seq::new(img.len(), |i: int| local_to_global_pixel(local_image(palette, img)[i], palette,
        palette.len())) =~= img);
}

/// The PNG bytes that export for the archive editor gives for texture `t` of `p`:
/// its global-indexed image mapped back to positions in its haze-0 palette, as an
/// indexed PNG with that palette's colours; `None` when the encoder refuses it.
pub open spec fn zip_texture_png(p: JamParsed, t: int, pal: Seq<u8>) -> Option<Seq<u8>> {
    let tx = p.textures@[t];
    let qps = tx.quarter_palette_size as int;
    let off = palette_offset(p.textures@, t as nat) as int;
    let haze0 = p.palette_data@.subrange(off, off + qps);
    indexed_png_bytes(
        local_image(haze0, texture_image(p.canvas@, tx)),
        tx.width as usize,
        tx.height as usize,
        rgb_palette(p.palette_data@, off, 0, qps, pal),
        tx.transparent != 0,
    )
}

/// Exports texture `tex_idx` for the archive editor: its global-indexed image is
/// mapped back to positions in its haze-0 palette and encoded as an indexed PNG
/// named `<stem>_<tex_idx>.png`. Textures that an export skips give `None`; every
/// other texture is non-empty, so its image is always encoded.
pub fn export_zip_texture(
    parsed: &JamParsed,
    stem: &str,
    tex_idx: usize,
    global_pal: &[u8],
) -> (r: Result<Option<(String, Vec<u8>)>, JamError>)
    requires
        tex_idx < parsed.textures@.len(),
        texture_skip(*parsed, tex_idx as int) is None ==> export_in_bounds(*parsed, tex_idx as int, 0, global_pal@),
    ensures
        r is Ok,
        ({
            let png = zip_texture_png(*parsed, tex_idx as int, global_pal@);
            match r {
                Ok(None) => texture_skip(*parsed, tex_idx as int) is Some,
                Ok(Some((name, bytes))) => texture_skip(*parsed, tex_idx as int) is None
                    && name@ == png_file_name_spec(stem@, tex_idx as nat)
                    && png == Some(bytes@),
                Err(e) => texture_skip(*parsed, tex_idx as int) is None
                    && e == JamError::PngEncoding && png is None,
            }
        }),
        r matches Ok(Some((_, bytes))) ==> {
            let tx = parsed.textures@[tex_idx as int];
            let off = palette_offset(parsed.textures@, tex_idx as nat) as int;
            exported_png_facts(bytes@, tx,
                Seq::new(tx.quarter_palette_size as nat, |i: int| parsed.palette_data@[off + i]), global_pal@)
        },
{
    if texture_skip_reason(parsed, tex_idx).is_some() {
        return Ok(None);
    }
    let tx = parsed.textures[tex_idx];
    let w = tx.width as usize;
    let h = tx.height as usize;
    let qps = tx.quarter_palette_size as usize;
    let transparent = tx.transparent != 0;
    let pal_off = texture_palette_offset(parsed, tex_idx);
    let pal_len = parsed.palette_data.len();
    assert(pal_off + qps <= pal_len);
    let img_global = extract_texture_image(parsed, tex_idx);
    let pal_slice = vstd::slice::slice_subrange(parsed.palette_data.as_slice(), pal_off, pal_off + qps);
    let img_local = global_to_local_indices(img_global.as_slice(), pal_slice);
    let rgb_pal = build_palette(parsed.palette_data.as_slice(), pal_off, 0, qps, global_pal);
    proof {
        assert((w as u32) * (h as u32) <= 0xffff * 0xffff) by (nonlinear_arith)
            requires w as u32 <= 0xffff, h as u32 <= 0xffff;
    }
    let png_data = match encode_indexed_png_to_bytes(img_local.as_slice(), w, h, &rgb_pal, transparent) {
        Ok(bytes) => bytes,
        Err(e) => return Err(e),
    };
    proof {
        let hp = Seq::new(qps as nat, |i: int| parsed.palette_data@[pal_off + i]);
        assert forall|idx: int| 0 <= idx < hp.len() implies #[trigger] palette_colour(rgb_pal@, idx)
            == palette_colour(global_pal@, hp[idx] as int) by {
            assert(hp[idx] == haze_entry(parsed.palette_data@, pal_off as int, 0, qps as int, idx));
        }
        lemma_exported_png(png_data@, tx, rgb_pal@, hp, global_pal@);
    }
    let png_name = png_file_name(stem, tex_idx);
    Ok(Some((png_name, png_data)))
}

/// The image files that export for the archive editor writes for the first `k`
/// textures of `p` under `stem`: one per texture that is not skipped, in order.
pub open spec fn zip_pngs(p: JamParsed, stem: Seq<char>, pal: Seq<u8>, k: nat) -> Seq<(Seq<char>, Seq<u8>)>
    decreases k,
{
    if k == 0 {
        Seq::empty()
    } else {
        let t = k - 1;
        let rest = zip_pngs(p, stem, pal, (k - 1) as nat);
        if texture_skip(p, t) is None {
            rest.push((png_file_name_spec(stem, t as nat), zip_texture_png(p, t, pal)->0))
        } else {
            rest
        }
    }
}

/// The files of an export for the archive editor: the metadata `meta_json` as
/// `<stem>.json`, then the image file of every texture that is not skipped.
pub open spec fn zip_files(p: JamParsed, stem: Seq<char>, pal: Seq<u8>, meta_json: Seq<u8>) -> Seq<(Seq<char>, Seq<u8>)> {
    seq![(stem + seq!['.', 'j', 's', 'o', 'n'], meta_json)] + zip_pngs(p, stem, pal, p.textures@.len())
}

/// The names and contents of a list of files.
pub open spec fn file_views(fs: Seq<(String, Vec<u8>)>) -> Seq<(Seq<char>, Seq<u8>)> {
    fs.map_values(|f: (String, Vec<u8>)| (f.0@, f.1@))
}

/// Exporting every texture that is not skipped reads only within `p` and `pal`.
pub open spec fn zip_export_in_bounds(p: JamParsed, pal: Seq<u8>) -> bool {
    forall|t: int| 0 <= t < p.textures@.len() ==> (texture_skip(p, t) is None
        ==> export_in_bounds(p, t, 0, pal))
}

/// Whether an export of `parsed` for the archive editor reads only within it and `global_pal`.
pub fn zip_export_fits(parsed: &JamParsed, global_pal: &[u8]) -> (b: bool)
    ensures
        b == zip_export_in_bounds(*parsed, global_pal@),
{
    let n = parsed.textures.len();
    let mut t: usize = 0;
    while t < n
        invariant
            n == parsed.textures@.len(),
            t <= n,
            forall|k: int| 0 <= k < t ==> (texture_skip(*parsed, k) is None
                ==> export_in_bounds(*parsed, k, 0, global_pal@)),
        decreases n - t,
    {
        if texture_skip_reason(parsed, t).is_none() && !export_fits(parsed, t, 0, global_pal) {
            return false;
        }
        t = t + 1;
    }
    true
}

/// The files of an export of `parsed` for the archive editor under `stem`: the
/// metadata `meta_json` as `<stem>.json`, then `<stem>_<t>.png` for every texture
/// `t` that is not skipped, in increasing order.
pub fn export_zip_files(parsed: &JamParsed, stem: &str, global_pal: &[u8], meta_json: Vec<u8>)
    -> (files: Vec<(String, Vec<u8>)>)
    requires
        zip_export_in_bounds(*parsed, global_pal@),
    ensures
        file_views(files@) == zip_files(*parsed, stem@, global_pal@, meta_json@),
{
    let mut json_name = stem.to_owned();
    json_name.append(".json");
    proof {
        reveal_strlit(".json");
        assert(".json"@ =~= seq!['.', 'j', 's', 'o', 'n']);
    }
    let ghost head = seq![(stem@ + seq!['.', 'j', 's', 'o', 'n'], meta_json@)];
    let mut files: Vec<(String, Vec<u8>)> = Vec::new();
    files.push((json_name, meta_json));
    assert(file_views(files@) =~= head);
    let n = parsed.textures.len();
    let mut t: usize = 0;
    while t < n
        invariant
            n == parsed.textures@.len(),
            zip_export_in_bounds(*parsed, global_pal@),
            t <= n,
            file_views(files@) == head + zip_pngs(*parsed, stem@, global_pal@, t as nat),
        decreases n - t,
    {
        let ghost before = files@;
        match export_zip_texture(parsed, stem, t, global_pal) {
            Ok(Some((name, bytes))) => {
                files.push((name, bytes));
                assert(file_views(files@) =~= file_views(before).push((name@, bytes@)));
                assert(head + zip_pngs(*parsed, stem@, global_pal@, (t + 1) as nat)
                    =~= (head + zip_pngs(*parsed, stem@, global_pal@, t as nat)).push((name@, bytes@)));
            },
            Ok(None) => {},
            Err(_) => {},
        }
        t = t + 1;
    }
    files
}

} // verus!
