//! Mapping RGBA pixels to the nearest colours of a 256-colour palette.

use vstd::prelude::*;
use crate::types::JamError;

verus! {

/// Squared distance between the colour (`r`, `g`, `b`) and entry `j` of the RGB palette `pal`.
pub open spec fn color_dist(r: int, g: int, b: int, pal: Seq<u8>, j: int) -> int {
    let dr = r - pal[3 * j];
    let dg = g - pal[3 * j + 1];
    let db = b - pal[3 * j + 2];
    dr * dr + dg * dg + db * db
}

/// Entry `j` is the first of the 256 palette entries nearest to (`r`, `g`, `b`).
pub open spec fn is_nearest(r: int, g: int, b: int, pal: Seq<u8>, j: int) -> bool {
    &&& 0 <= j < 256
    &&& forall|i: int| 0 <= i < 256 ==> color_dist(r, g, b, pal, j) <= #[trigger] color_dist(r, g, b, pal, i)
    &&& forall|i: int| 0 <= i < j ==> color_dist(r, g, b, pal, j) < #[trigger] color_dist(r, g, b, pal, i)
}

/// Pixel `i` of the quantized image: 0 when its alpha is below `alpha_threshold`,
/// else its nearest palette entry.
pub open spec fn quantized_pixel_ok(rgba: Seq<u8>, alpha_threshold: u8, pal: Seq<u8>, i: int, v: u8) -> bool {
    if rgba[4 * i + 3] < alpha_threshold {
        v == 0
    } else {
        is_nearest(rgba[4 * i] as int, rgba[4 * i + 1] as int, rgba[4 * i + 2] as int, pal, v as int)
    }
}

/// Entry `k` of the RGB palette `pal` has the colour (`r`, `g`, `b`): red, green
/// and blue at `3k`, `3k + 1` and `3k + 2`.
pub open spec fn entry_has_colour(pal: Seq<u8>, k: int, r: int, g: int, b: int) -> bool {
    pal[3 * k] == r && pal[3 * k + 1] == g && pal[3 * k + 2] == b
}

/// The squared distance between the colour (`r`, `g`, `b`) and entry `i` of the RGB
/// palette `pal`, comparing red with red, green with green and blue with blue.
pub open spec fn channel_sq_dist(r: int, g: int, b: int, pal: Seq<u8>, i: int) -> int {
    (r - pal[3 * i]) * (r - pal[3 * i]) + (g - pal[3 * i + 1]) * (g - pal[3 * i + 1])
        + (b - pal[3 * i + 2]) * (b - pal[3 * i + 2])
}

/// The entry chosen for a colour is as close to it as any entry, measuring the
/// squared difference of red to red, green to green and blue to blue.
pub proof fn lemma_nearest_minimises(r: int, g: int, b: int, pal: Seq<u8>, j: int)
    requires
        is_nearest(r, g, b, pal, j),
    ensures
        forall|i: int| 0 <= i < 256 ==> channel_sq_dist(r, g, b, pal, j) <= #[trigger] channel_sq_dist(r, g, b, pal, i),
{
    assert forall|i: int| 0 <= i < 256 implies channel_sq_dist(r, g, b, pal, j) <= #[trigger] channel_sq_dist(r, g, b, pal, i) by {
        assert(color_dist(r, g, b, pal, j) <= color_dist(r, g, b, pal, i));
    }
}

/// A colour that is one of the palette's colours is given an entry of exactly
/// that colour.
pub proof fn lemma_nearest_exact(r: int, g: int, b: int, pal: Seq<u8>, j: int, k: int)
    requires
        is_nearest(r, g, b, pal, j),
        0 <= k < 256,
        entry_has_colour(pal, k, r, g, b),
    ensures
        entry_has_colour(pal, j, r, g, b),
{
    let (kr, kg, kb) = (r - pal[3 * k], g - pal[3 * k + 1], b - pal[3 * k + 2]);
    assert(kr * kr + kg * kg + kb * kb == 0) by (nonlinear_arith)
        requires kr == 0, kg == 0, kb == 0;
    assert(color_dist(r, g, b, pal, k) == 0);
    assert(color_dist(r, g, b, pal, j) <= color_dist(r, g, b, pal, k));
    let dr = r - pal[3 * j];
    let dg = g - pal[3 * j + 1];
    let db = b - pal[3 * j + 2];
    assert(dr * dr + dg * dg + db * db <= 0);
    assert(dr == 0 && dg == 0 && db == 0) by (nonlinear_arith)
        requires dr * dr + dg * dg + db * db <= 0;
}

proof fn lemma_dist_bound(d: int)
    requires
        -255 <= d <= 255,
    ensures
        0 <= d * d <= 65025,
{
    assert(0 <= d * d <= 65025) by (nonlinear_arith)
        requires -255 <= d <= 255;
}

/// The first palette entry nearest to (`r`, `g`, `b`).
fn nearest_color(r: u8, g: u8, b: u8, pal: &[u8]) -> (j: u8)
    requires
        pal@.len() >= 768,
    ensures
        is_nearest(r as int, g as int, b as int, pal@, j as int),
{
    let ghost (ri, gi, bi) = (r as int, g as int, b as int);
    let mut best_idx: u8 = 0;
    let mut best_dist: i32 = i32::MAX;
    let mut j: usize = 0;
    while j < 256
        invariant
            pal@.len() >= 768,
            ri == r as int, gi == g as int, bi == b as int,
            j <= 256,
            j == 0 ==> best_dist == i32::MAX,
            j > 0 ==> best_idx < j && best_dist == color_dist(ri, gi, bi, pal@, best_idx as int),
            forall|i: int| 0 <= i < j ==> best_dist <= #[trigger] color_dist(ri, gi, bi, pal@, i),
            forall|i: int| 0 <= i < best_idx ==> best_dist < #[trigger] color_dist(ri, gi, bi, pal@, i),
        decreases 256 - j,
    {
        let dr: i32 = r as i32 - pal[j * 3] as i32;
        let dg: i32 = g as i32 - pal[j * 3 + 1] as i32;
        let db: i32 = b as i32 - pal[j * 3 + 2] as i32;
        proof {
            lemma_dist_bound(dr as int);
            lemma_dist_bound(dg as int);
            lemma_dist_bound(db as int);
        }
        let dist = dr * dr + dg * dg + db * db;
        assert(dist == color_dist(ri, gi, bi, pal@, j as int));
        if dist < best_dist {
            best_dist = dist;
            best_idx = j as u8;
        }
        j = j + 1;
    }
    best_idx
}

/// Quantizes RGBA pixel data to the nearest entries of the 256-colour RGB palette `palette`.
///
/// `rgba` holds 4 bytes per pixel (R, G, B, A). Pixels with alpha below
/// `alpha_threshold` get index 0. The result has one palette index per pixel;
/// RGBA data whose length is not a multiple of 4 is refused.
pub fn quantize_rgba_to_indices(rgba: &[u8], alpha_threshold: u8, palette: &[u8]) -> (r: Result<Vec<u8>, JamError>)
    requires
        palette@.len() >= 768,
    ensures
        match r {
            Ok(indices) => rgba@.len() % 4 == 0 && indices@.len() == rgba@.len() / 4
                && forall|i: int| 0 <= i < indices@.len()
                    ==> quantized_pixel_ok(rgba@, alpha_threshold, palette@, i, #[trigger] indices@[i])
                && forall|i: int, k: int| 0 <= i < indices@.len() && 0 <= k < 256
                    && rgba@[4 * i + 3] >= alpha_threshold
                    && #[trigger] entry_has_colour(palette@, k, rgba@[4 * i] as int, rgba@[4 * i + 1] as int, rgba@[4 * i + 2] as int)
                    ==> entry_has_colour(palette@, #[trigger] indices@[i] as int, rgba@[4 * i] as int, rgba@[4 * i + 1] as int,
                        rgba@[4 * i + 2] as int)
                && forall|i: int, k: int| 0 <= i < indices@.len() && 0 <= k < 256 && rgba@[4 * i + 3] >= alpha_threshold
                    ==> channel_sq_dist(rgba@[4 * i] as int, rgba@[4 * i + 1] as int, rgba@[4 * i + 2] as int, palette@,
                        indices@[i] as int)
                    <= #[trigger] channel_sq_dist(rgba@[4 * i] as int, rgba@[4 * i + 1] as int, rgba@[4 * i + 2] as int,
                        palette@, k),
            Err(e) => rgba@.len() % 4 != 0 && e == JamError::RgbaLength,
        },
{
    if rgba.len() % 4 != 0 {
        return Err(JamError::RgbaLength);
    }
    let num_pixels = rgba.len() / 4;
    let mut indices: Vec<u8> = Vec::with_capacity(num_pixels);
    let mut i: usize = 0;
    while i < num_pixels
        invariant
            palette@.len() >= 768,
            num_pixels == rgba@.len() / 4,
            rgba@.len() % 4 == 0,
            num_pixels * 4 == rgba@.len(),
            rgba@.len() <= usize::MAX,
            i <= num_pixels,
            indices@.len() == i,
            forall|k: int| 0 <= k < i ==> quantized_pixel_ok(rgba@, alpha_threshold, palette@, k, #[trigger] indices@[k]),
        decreases num_pixels - i,
    {
        let off = i * 4;
        let a = rgba[off + 3];
        if a < alpha_threshold {
            indices.push(0);
        } else {
            let j = nearest_color(rgba[off], rgba[off + 1], rgba[off + 2], palette);
            indices.push(j);
        }
        i = i + 1;
    }
    proof {
        assert forall|i: int, k: int| 0 <= i < indices@.len() && 0 <= k < 256
            && rgba@[4 * i + 3] >= alpha_threshold
            && #[trigger] entry_has_colour(palette@, k, rgba@[4 * i] as int, rgba@[4 * i + 1] as int, rgba@[4 * i + 2] as int)
            implies entry_has_colour(palette@, #[trigger] indices@[i] as int, rgba@[4 * i] as int, rgba@[4 * i + 1] as int,
                rgba@[4 * i + 2] as int) by {
            assert(quantized_pixel_ok(rgba@, alpha_threshold, palette@, i, indices@[i]));
            lemma_nearest_exact(rgba@[4 * i] as int, rgba@[4 * i + 1] as int, rgba@[4 * i + 2] as int, palette@,
                indices@[i] as int, k);
        }
    }
    proof {
        assert forall|i: int, k: int| 0 <= i < indices@.len() && 0 <= k < 256 && rgba@[4 * i + 3] >= alpha_threshold
            implies channel_sq_dist(rgba@[4 * i] as int, rgba@[4 * i + 1] as int, rgba@[4 * i + 2] as int, palette@,
                indices@[i] as int)
            <= #[trigger] channel_sq_dist(rgba@[4 * i] as int, rgba@[4 * i + 1] as int, rgba@[4 * i + 2] as int,
                palette@, k) by {
            assert(quantized_pixel_ok(rgba@, alpha_threshold, palette@, i, indices@[i]));
            lemma_nearest_minimises(rgba@[4 * i] as int, rgba@[4 * i + 1] as int, rgba@[4 * i + 2] as int, palette@,
                indices@[i] as int);
        }
    }
    Ok(indices)
}

} // verus!
