//! Texture regions on the canvas and the mapping of their local palette
//! indices to global palette indices.

use vstd::prelude::*;
use vstd::arithmetic::div_mod::lemma_fundamental_div_mod_converse;
use crate::types::{JamParsed, JamTexture, CANVAS_W};

verus! {

/// Canvas position of pixel `k` (in row-major order) of the texture `tx`.
pub open spec fn texel_index(tx: JamTexture, k: int) -> int {
    (tx.top + k / (tx.width as int)) * 256 + tx.left + k % (tx.width as int)
}

/// Number of pixels of the texture `tx`.
pub open spec fn texel_count(tx: JamTexture) -> nat {
    (tx.width * tx.height) as nat
}

/// The pixels of the region of `tx`, read row by row from `canvas`.
pub open spec fn texture_image(canvas: Seq<u8>, tx: JamTexture) -> Seq<u8> {
    Seq::new(texel_count(tx), |k: int| canvas[texel_index(tx, k)])
}

/// Every row that reading the region of `tx` slices out lies within a canvas of `len` bytes.
pub open spec fn rows_within(tx: JamTexture, len: int) -> bool {
    tx.height == 0 || (tx.top + tx.height - 1) * 256 + tx.left + tx.width <= len
}

/// Every pixel of the region of `tx` lies within a canvas of `len` bytes.
pub open spec fn texels_within(tx: JamTexture, len: int) -> bool {
    tx.width == 0 || rows_within(tx, len)
}

/// Offset of the palettes of texture `k`: four haze palettes for each texture before it.
pub open spec fn palette_offset(txs: Seq<JamTexture>, k: nat) -> nat
    decreases k,
{
    if k == 0 {
        0
    } else {
        palette_offset(txs, (k - 1) as nat) + 4 * (txs[k - 1].quarter_palette_size as nat)
    }
}

pub(crate) proof fn lemma_row_col(k: int, w: int, yy: int, xx: int)
    requires
        0 < w,
        0 <= xx < w,
        k == yy * w + xx,
    ensures
        k / w == yy,
        k % w == xx,
{
    lemma_fundamental_div_mod_converse(k, w, yy, xx);
}

/// Extract the pixel data for a specific texture from the canvas,
/// using whatever indices (local or global) are currently stored.
pub fn extract_texture_image(parsed: &JamParsed, tex_idx: usize) -> (img: Vec<u8>)
    requires
        tex_idx < parsed.textures@.len(),
        rows_within(parsed.textures@[tex_idx as int], parsed.canvas@.len() as int),
    ensures
        img@ == texture_image(parsed.canvas@, parsed.textures@[tex_idx as int]),
{
    let tx = parsed.textures[tex_idx];
    let w = tx.width as usize;
    let h = tx.height as usize;
    let x = tx.left as usize;
    let y = tx.top as usize;
    let ghost canvas = parsed.canvas@;
    let mut img: Vec<u8> = Vec::new();
    let mut yy: usize = 0;
    while yy < h
        invariant
            canvas == parsed.canvas@,
            tex_idx < parsed.textures@.len(),
            tx == parsed.textures@[tex_idx as int],
            w == tx.width, h == tx.height, x == tx.left, y == tx.top,
            rows_within(tx, canvas.len() as int),
            yy <= h,
            img@.len() == yy * w,
            forall|k: int| 0 <= k < img@.len() ==> #[trigger] img@[k] == canvas[texel_index(tx, k)],
        decreases h - yy,
    {
        let src = (y + yy) * CANVAS_W + x;
        let mut xx: usize = 0;
        while xx < w
            invariant
                canvas == parsed.canvas@,
                w == tx.width, h == tx.height, x == tx.left, y == tx.top,
                rows_within(tx, canvas.len() as int),
                yy < h,
                src == (y + yy) * 256 + x,
                xx <= w,
                img@.len() == yy * w + xx,
                forall|k: int| 0 <= k < img@.len() ==> #[trigger] img@[k] == canvas[texel_index(tx, k)],
            decreases w - xx,
        {
            proof {
                lemma_row_col(yy * w + xx, w as int, yy as int, xx as int);
            }
            img.push(parsed.canvas[src + xx]);
            xx = xx + 1;
        }
        assert((yy + 1) * w == yy * w + w) by (nonlinear_arith);
        yy = yy + 1;
    }
    assert(h * w == w * h) by (nonlinear_arith);
    assert(img@ =~= texture_image(canvas, tx));
    img
}

/// Return the byte offset into `palette_data` for a given texture index.
///
/// Palettes are stored sequentially: for each texture, `quarter_palette_size * 4` bytes.
pub fn texture_palette_offset(parsed: &JamParsed, tex_idx: usize) -> (off: usize)
    requires
        tex_idx <= parsed.textures@.len(),
        palette_offset(parsed.textures@, tex_idx as nat) <= usize::MAX,
    ensures
        off == palette_offset(parsed.textures@, tex_idx as nat),
{
    let mut off: usize = 0;
    let mut t: usize = 0;
    while t < tex_idx
        invariant
            tex_idx <= parsed.textures@.len(),
            palette_offset(parsed.textures@, tex_idx as nat) <= usize::MAX,
            t <= tex_idx,
            off == palette_offset(parsed.textures@, t as nat),
        decreases tex_idx - t,
    {
        proof {
            lemma_palette_offset_monotone(parsed.textures@, (t + 1) as nat, tex_idx as nat);
        }
        off = off + (parsed.textures[t].quarter_palette_size as usize) * 4;
        t = t + 1;
    }
    off
}

pub(crate) proof fn lemma_palette_offset_monotone(txs: Seq<JamTexture>, a: nat, b: nat)
    requires
        a <= b,
    ensures
        palette_offset(txs, a) <= palette_offset(txs, b),
    decreases b - a,
{
    if a < b {
        lemma_palette_offset_monotone(txs, a, (b - 1) as nat);
    }
}

/// The first `k` pixels of the region of `tx` in `c`, mapped one after the other
/// through `map`: a pixel whose value is below the haze palette size becomes the
/// entry of `map` at that value, any other pixel is left as it is.
pub open spec fn remap_texels(c: Seq<u8>, tx: JamTexture, map: Seq<u8>, k: nat) -> Seq<u8>
    decreases k,
{
    if k == 0 {
        c
    } else {
        let prev = remap_texels(c, tx, map, (k - 1) as nat);
        let d = texel_index(tx, k - 1);
        if (prev[d] as int) < (tx.quarter_palette_size as int) {
            prev.update(d, map[prev[d] as int])
        } else {
            prev
        }
    }
}

pub(crate) proof fn lemma_texel_in_bounds(tx: JamTexture, len: int, k: int)
    requires
        0 <= k < texel_count(tx),
        texels_within(tx, len),
    ensures
        0 <= texel_index(tx, k) < len,
{
    let w = tx.width as int;
    let h = tx.height as int;
    assert(w > 0 && h > 0) by (nonlinear_arith)
        requires 0 <= k < w * h, w >= 0, h >= 0;
    let q = k / w;
    let r = k % w;
    assert(k == q * w + r && 0 <= r < w) by (nonlinear_arith)
        requires w > 0, q == k / w, r == k % w;
    assert(0 <= q < h) by (nonlinear_arith)
        requires k == q * w + r, 0 <= r < w, 0 <= k < w * h;
}

pub(crate) proof fn lemma_remap_texels_len(c: Seq<u8>, tx: JamTexture, map: Seq<u8>, k: nat)
    requires
        k <= texel_count(tx),
        texels_within(tx, c.len() as int),
    ensures
        remap_texels(c, tx, map, k).len() == c.len(),
    decreases k,
{
    if k > 0 {
        lemma_remap_texels_len(c, tx, map, (k - 1) as nat);
        lemma_texel_in_bounds(tx, c.len() as int, k - 1);
    }
}

/// The canvas after the regions of the first `n` textures have been mapped,
/// in order, through the haze-0 palettes of their textures. Textures with an
/// empty haze palette are skipped.
pub open spec fn global_canvas(txs: Seq<JamTexture>, palettes: Seq<u8>, canvas: Seq<u8>, n: nat) -> Seq<u8>
    decreases n,
{
    if n == 0 {
        canvas
    } else {
        let prev = global_canvas(txs, palettes, canvas, (n - 1) as nat);
        let tx = txs[n - 1];
        let qps = tx.quarter_palette_size as int;
        if qps == 0 {
            prev
        } else {
            let off = palette_offset(txs, (n - 1) as nat) as int;
            remap_texels(prev, tx, palettes.subrange(off, off + qps), texel_count(tx))
        }
    }
}

/// What converting the canvas of `p` to global indices reads must lie within
/// `p`: the haze-0 palette and the region of each texture with a non-empty palette.
pub open spec fn global_conversion_in_bounds(p: JamParsed) -> bool {
    forall|t: int| 0 <= t < p.textures@.len() && #[trigger] p.textures@[t].quarter_palette_size > 0 ==> {
        &&& palette_offset(p.textures@, t as nat) + p.textures@[t].quarter_palette_size
            <= p.palette_data@.len()
        &&& (p.textures@[t].height > 0 ==> texels_within(p.textures@[t], p.canvas@.len() as int))
    }
}

/// Convert all texture regions in the canvas from local palette indices
/// (pointing into each texture's own sub-palette) to global GP2 palette indices.
pub fn canvas_to_global_indices(parsed: &JamParsed) -> (global: Vec<u8>)
    requires
        global_conversion_in_bounds(*parsed),
    ensures
        global@ == global_canvas(parsed.textures@, parsed.palette_data@, parsed.canvas@,
            parsed.textures@.len()),
{
    let mut global = vstd::slice::slice_to_vec(parsed.canvas.as_slice());
    let n = parsed.textures.len();
    let pal_len = parsed.palette_data.len();
    let ghost txs = parsed.textures@;
    let mut i: usize = 0;
    while i < n
        invariant
            global_conversion_in_bounds(*parsed),
            txs == parsed.textures@,
            n == txs.len(),
            pal_len == parsed.palette_data@.len(),
            i <= n,
            global@ == global_canvas(txs, parsed.palette_data@, parsed.canvas@, i as nat),
            global@.len() == parsed.canvas@.len(),
        decreases n - i,
    {
        let tex = parsed.textures[i];
        let qps = tex.quarter_palette_size as usize;
        if qps == 0 {
            i = i + 1;
            continue;
        }
        assert(parsed.textures@[i as int].quarter_palette_size > 0);
        assert(palette_offset(txs, i as nat) + qps <= pal_len);
        let off = texture_palette_offset(parsed, i);
        let ghost old_global = global@;
        let map = vstd::slice::slice_subrange(parsed.palette_data.as_slice(), off, off + qps);
        remap_region(&mut global, &tex, map);
        proof {
            lemma_remap_texels_len(old_global, tex, map@, texel_count(tex));
        }
        i = i + 1;
    }
    global
}

/// Maps every pixel of the region of `tex` in `global` through `map`.
fn remap_region(global: &mut Vec<u8>, tex: &JamTexture, map: &[u8])
    requires
        map@.len() == tex.quarter_palette_size,
        tex.height > 0 ==> texels_within(*tex, old(global)@.len() as int),
    ensures
        final(global)@ == remap_texels(old(global)@, *tex, map@, texel_count(*tex)),
{
    let qps = tex.quarter_palette_size as usize;
    let w = tex.width as usize;
    let h = tex.height as usize;
    let ghost c0 = global@;
    let mut y: usize = 0;
    while y < h
        invariant
            qps == tex.quarter_palette_size,
            map@.len() == qps,
            w == tex.width, h == tex.height,
            h > 0 ==> texels_within(*tex, c0.len() as int),
            y <= h,
            global@ == remap_texels(c0, *tex, map@, (y * w) as nat),
            global@.len() == c0.len(),
        decreases h - y,
    {
        let mut x: usize = 0;
        while x < w
            invariant
                qps == tex.quarter_palette_size,
                map@.len() == qps,
                w == tex.width, h == tex.height,
                texels_within(*tex, c0.len() as int),
                y < h,
                x <= w,
                global@ == remap_texels(c0, *tex, map@, (y * w + x) as nat),
                global@.len() == c0.len(),
            decreases w - x,
        {
            proof {
                lemma_row_col(y * w + x, w as int, y as int, x as int);
            }
            let dst = (tex.top as usize + y) * CANVAS_W + (tex.left as usize + x);
            let local = global[dst] as usize;
            if local < qps {
                global.set(dst, map[local]);
            }
            x = x + 1;
        }
        assert((y + 1) * w == y * w + w) by (nonlinear_arith);
        y = y + 1;
    }
    assert(h * w == texel_count(*tex)) by (nonlinear_arith)
        requires h == tex.height, w == tex.width;
}

/// The global index that one pixel holding `local_idx` stands for: the palette
/// entry at `local_idx` when it is below `qps` and the palette has `qps` entries, else 0.
pub open spec fn local_to_global_pixel(local_idx: u8, palette: Seq<u8>, qps: nat) -> u8 {
    if (local_idx as nat) < qps && qps <= palette.len() {
        palette[local_idx as int]
    } else {
        0
    }
}

/// Convert local-indexed pixel data to global GP2 indices using a palette (local→global mapping).
pub fn local_to_global_indices(img_local: &[u8], palette: &[u8], qps: usize) -> (out: Vec<u8>)
    ensures
        out@ == Seq::new(img_local@.len(), |i: int| local_to_global_pixel(img_local@[i], palette@, qps as nat)),
{
    let mut out: Vec<u8> = Vec::new();
    let mut i: usize = 0;
    while i < img_local.len()
        invariant
            i <= img_local@.len(),
            out@ =~= Seq::new(i as nat, |j: int| local_to_global_pixel(img_local@[j], palette@, qps as nat)),
        decreases img_local@.len() - i,
    {
        let local_idx = img_local[i];
        let g = if (local_idx as usize) < qps && qps <= palette.len() {
            palette[local_idx as usize]
        } else {
            0
        };
        out.push(g);
        i = i + 1;
    }
    out
}

/// The parts of `p` fit together as parsing makes them: the header counts the
/// records, the canvas has `canvas_h` rows, the palette block holds four haze
/// palettes per texture, and no haze palette has more than 256 entries.
pub open spec fn parsed_consistent(p: JamParsed) -> bool {
    &&& p.num_textures == p.textures@.len()
    &&& p.canvas@.len() == 256 * p.canvas_h
    &&& p.palette_data@.len() == palette_offset(p.textures@, p.textures@.len())
    &&& forall|t: int| 0 <= t < p.textures@.len() ==> (#[trigger] p.textures@[t]).quarter_palette_size <= 256
}

/// Whether the parts of `parsed` fit together as parsing makes them.
pub fn is_consistent(parsed: &JamParsed) -> (b: bool)
    ensures
        b == parsed_consistent(*parsed),
{
    let n = parsed.textures.len();
    if parsed.num_textures as usize != n {
        return false;
    }
    if parsed.canvas.len() != CANVAS_W * (parsed.canvas_h as usize) {
        return false;
    }
    let pal_len = parsed.palette_data.len();
    let mut off: usize = 0;
    let mut t: usize = 0;
    while t < n
        invariant
            n == parsed.textures@.len(),
            pal_len == parsed.palette_data@.len(),
            t <= n,
            off == palette_offset(parsed.textures@, t as nat),
            off <= pal_len,
            forall|k: int| 0 <= k < t ==> (#[trigger] parsed.textures@[k]).quarter_palette_size <= 256,
        decreases n - t,
    {
        let qps = parsed.textures[t].quarter_palette_size as usize;
        if qps > 256 {
            return false;
        }
        if qps * 4 > pal_len - off {
            proof {
                lemma_palette_offset_monotone(parsed.textures@, (t + 1) as nat, n as nat);
            }
            return false;
        }
        off = off + qps * 4;
        t = t + 1;
    }
    off == pal_len
}

} // verus!
