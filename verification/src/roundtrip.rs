//! What decoding gives back of an encoded archive.

use vstd::prelude::*;
use vstd::arithmetic::div_mod::lemma_fundamental_div_mod_converse;
use crate::canvas::{
    global_canvas, palette_offset, lemma_remap_texels_len, lemma_row_col, lemma_texel_in_bounds, remap_texels, texel_count,
    texel_index, texels_within,
};
use crate::crypt::{jam_crypt, lemma_jam_crypt_involution};
use crate::encode::{
    blank_canvas, encode_error, encode_in_bounds, encode_requirements, encoded_size, lemma_first_size_mismatch_same,
    lemma_first_size_mismatch_stable, encoded_palette_bytes, first_size_mismatch,
    jam_bytes, jam_layout, lemma_paint_texels_len, local_images, palette_block, paint_canvas,
    meta_records, paint_texels, record_byte,
};
use crate::canvas::{global_conversion_in_bounds, texture_image};
use crate::palettize::{
    distinct_colors, lemma_distinct_colors_at_most_256, lemma_local_pixel, local_palette,
    repalettized, repalettized_qps, repalettized_texture, };
use crate::parse::{
    canvas_bytes, canvas_start, first_oversized, hdr_canvas_h, hdr_num_textures, jam_parse_error,
    jam_parsed_from, palette_bytes, record_offset, record_qps, texture_from_bytes,
};
use crate::types::{JamMeta, JamParsed, JamTexture, MetaTexture};

verus! {

/// Canvas position `pos` lies in the rectangle of `tx`.
pub open spec fn in_rect(tx: JamTexture, pos: int) -> bool {
    &&& 0 <= pos
    &&& tx.top <= pos / 256 < tx.top + tx.height
    &&& tx.left <= pos % 256 < tx.left + tx.width
}

/// Row-major number, within the rectangle of `tx`, of the canvas position `pos`.
pub open spec fn rect_k(tx: JamTexture, pos: int) -> int {
    (pos / 256 - tx.top) * (tx.width as int) + (pos % 256 - tx.left)
}

/// The rectangle of `tx` does not run past the right edge of the canvas.
pub open spec fn within_row(tx: JamTexture) -> bool {
    tx.left + tx.width <= 256
}

/// The rectangles of `a` and `b` share no pixel: one of them is empty, or they
/// lie side by side or one above the other.
pub open spec fn rects_disjoint(a: JamTexture, b: JamTexture) -> bool {
    ||| a.width == 0 || a.height == 0
    ||| b.width == 0 || b.height == 0
    ||| a.left + a.width <= b.left
    ||| b.left + b.width <= a.left
    ||| a.top + a.height <= b.top
    ||| b.top + b.height <= a.top
}

/// Pixel `k` of a texture that does not run past the right edge sits at a
/// position of its rectangle whose number is `k`.
pub proof fn lemma_texel_in_rect(tx: JamTexture, k: int)
    requires
        within_row(tx),
        0 <= k < texel_count(tx),
    ensures
        in_rect(tx, texel_index(tx, k)),
        rect_k(tx, texel_index(tx, k)) == k,
{
    let w = tx.width as int;
    let h = tx.height as int;
    assert(w > 0 && h > 0) by (nonlinear_arith)
        requires 0 <= k < w * h, w >= 0, h >= 0;
    let q = k / w;
    let r = k % w;
    assert(k == q * w + r && 0 <= r < w) by (nonlinear_arith)
        requires w > 0, q == k / w, r == k % w;
    assert(0 <= q < h) by (nonlinear_arith)
        requires k == q * w + r, 0 <= r < w, 0 <= k < w * h;
    let pos = texel_index(tx, k);
    assert(pos == (tx.top + q) * 256 + (tx.left + r));
    lemma_fundamental_div_mod_converse(pos, 256, tx.top + q, tx.left + r);
}

/// Every position of the rectangle of a texture that does not run past the right
/// edge is the position of the pixel with its number.
pub proof fn lemma_rect_texel(tx: JamTexture, pos: int)
    requires
        within_row(tx),
        in_rect(tx, pos),
    ensures
        0 <= rect_k(tx, pos) < texel_count(tx),
        texel_index(tx, rect_k(tx, pos)) == pos,
{
    let w = tx.width as int;
    let h = tx.height as int;
    let q = pos / 256 - tx.top;
    let r = pos % 256 - tx.left;
    let k = rect_k(tx, pos);
    assert(0 <= q < h && 0 <= r < w);
    assert(k == q * w + r);
    assert(0 <= k < w * h) by (nonlinear_arith)
        requires k == q * w + r, 0 <= q < h, 0 <= r < w;
    assert(texel_count(tx) == w * h);
    lemma_row_col(k, w, q, r);
    assert(pos == (pos / 256) * 256 + pos % 256) by {
        lemma_fundamental_div_mod_converse(pos, 256, pos / 256, pos % 256);
    }
}

/// After painting the first `kk` pixels of `img` into the rectangle of `tx`, a
/// position of the rectangle whose number is below `kk` holds its pixel, and
/// every other position is unchanged.
pub proof fn lemma_paint_texels_at(c: Seq<u8>, tx: JamTexture, img: Seq<u8>, kk: nat, pos: int)
    requires
        within_row(tx),
        texels_within(tx, c.len() as int),
        kk <= texel_count(tx),
        0 <= pos < c.len(),
    ensures
        paint_texels(c, tx, img, kk)[pos] == if in_rect(tx, pos) && rect_k(tx, pos) < kk {
            img[rect_k(tx, pos)]
        } else {
            c[pos]
        },
    decreases kk,
{
    if kk > 0 {
        let k = kk - 1;
        lemma_paint_texels_at(c, tx, img, k as nat, pos);
        lemma_paint_texels_len(c, tx, img, k as nat);
        lemma_texel_in_bounds(tx, c.len() as int, k);
        lemma_texel_in_rect(tx, k);
        if in_rect(tx, pos) {
            lemma_rect_texel(tx, pos);
        }
    }
}

/// After mapping the first `kk` pixels of the rectangle of `tx` through `map`, a
/// position of the rectangle whose number is below `kk` holds its original value
/// mapped, and every other position is unchanged.
pub proof fn lemma_remap_texels_at(c: Seq<u8>, tx: JamTexture, map: Seq<u8>, kk: nat, pos: int)
    requires
        within_row(tx),
        texels_within(tx, c.len() as int),
        kk <= texel_count(tx),
        0 <= pos < c.len(),
    ensures
        remap_texels(c, tx, map, kk)[pos] == if in_rect(tx, pos) && rect_k(tx, pos) < kk
            && (c[pos] as int) < (tx.quarter_palette_size as int) {
            map[c[pos] as int]
        } else {
            c[pos]
        },
    decreases kk,
{
    if kk > 0 {
        let k = kk - 1;
        lemma_remap_texels_at(c, tx, map, k as nat, pos);
        lemma_remap_texels_len(c, tx, map, k as nat);
        lemma_texel_in_bounds(tx, c.len() as int, k);
        lemma_texel_in_rect(tx, k);
        let d = texel_index(tx, k);
        lemma_remap_texels_at(c, tx, map, k as nat, d);
        if in_rect(tx, pos) {
            lemma_rect_texel(tx, pos);
        }
    }
}

/// The textures `txs[0..n]` lie in rows of their own, within a canvas of `len`
/// bytes, and no two of them share a pixel.
pub open spec fn separate_regions(txs: Seq<JamTexture>, n: nat, len: int) -> bool {
    &&& n <= txs.len()
    &&& forall|t: int| 0 <= t < n ==> within_row(#[trigger] txs[t]) && texels_within(txs[t], len)
    &&& forall|a: int, b: int| 0 <= a < n && 0 <= b < n && a != b
        ==> rects_disjoint(#[trigger] txs[a], #[trigger] txs[b])
}

/// After painting the images of the first `n` textures, a position in the
/// rectangle of one of them holds that texture's pixel; any other position is unchanged.
pub proof fn lemma_paint_canvas_at(mts: Seq<MetaTexture>, imgs: Seq<Seq<u8>>, c: Seq<u8>, n: nat, pos: int)
    requires
        separate_regions(meta_records(mts), n, c.len() as int),
        0 <= pos < c.len(),
    ensures
        paint_canvas(mts, imgs, c, n).len() == c.len(),
        (forall|t: int| 0 <= t < n ==> !in_rect(#[trigger] mts[t].tx, pos))
            ==> paint_canvas(mts, imgs, c, n)[pos] == c[pos],
        forall|t: int| 0 <= t < n && in_rect(#[trigger] mts[t].tx, pos)
            ==> paint_canvas(mts, imgs, c, n)[pos] == imgs[t][rect_k(mts[t].tx, pos)],
    decreases n,
{
    let txs = meta_records(mts);
    if n > 0 {
        let m = (n - 1) as nat;
        assert(separate_regions(txs, m, c.len() as int));
        lemma_paint_canvas_at(mts, imgs, c, m, pos);
        let prev = paint_canvas(mts, imgs, c, m);
        let tx = mts[m as int].tx;
        assert(txs[m as int] == tx);
        assert(within_row(tx) && texels_within(tx, c.len() as int));
        lemma_paint_texels_at(prev, tx, imgs[m as int], texel_count(tx), pos);
        lemma_paint_texels_len(prev, tx, imgs[m as int], texel_count(tx));
        if in_rect(tx, pos) {
            lemma_rect_texel(tx, pos);
            assert forall|t: int| 0 <= t < n && in_rect(#[trigger] mts[t].tx, pos) implies t == m by {
                if t != m {
                    assert(txs[t] == mts[t].tx);
                    assert(rects_disjoint(txs[t], txs[m as int]));
                }
            }
        }
    }
}

/// After the conversion of the first `n` textures to global indices, a position in
/// the rectangle of one of them holds its value mapped through that texture's
/// haze-0 palette (values not below the palette size stay); any other position is unchanged.
pub proof fn lemma_global_canvas_at(txs: Seq<JamTexture>, pal: Seq<u8>, c: Seq<u8>, n: nat, pos: int)
    requires
        separate_regions(txs, n, c.len() as int),
        forall|t: int| 0 <= t < n ==> palette_offset(txs, t as nat) + (#[trigger] txs[t]).quarter_palette_size
            <= pal.len(),
        0 <= pos < c.len(),
    ensures
        global_canvas(txs, pal, c, n).len() == c.len(),
        (forall|t: int| 0 <= t < n ==> !in_rect(#[trigger] txs[t], pos))
            ==> global_canvas(txs, pal, c, n)[pos] == c[pos],
        forall|t: int| 0 <= t < n && in_rect(#[trigger] txs[t], pos)
            ==> global_canvas(txs, pal, c, n)[pos] == if (c[pos] as int) < (txs[t].quarter_palette_size as int) {
                pal[palette_offset(txs, t as nat) + c[pos]]
            } else {
                c[pos]
            },
    decreases n,
{
    if n > 0 {
        let m = (n - 1) as nat;
        assert(separate_regions(txs, m, c.len() as int));
        lemma_global_canvas_at(txs, pal, c, m, pos);
        let prev = global_canvas(txs, pal, c, m);
        let tx = txs[m as int];
        let qps = tx.quarter_palette_size as int;
        let off = palette_offset(txs, m) as int;
        assert(off + qps <= pal.len());
        if qps > 0 {
            lemma_remap_texels_at(prev, tx, pal.subrange(off, off + qps), texel_count(tx), pos);
            lemma_remap_texels_len(prev, tx, pal.subrange(off, off + qps), texel_count(tx));
        }
        if in_rect(tx, pos) {
            lemma_rect_texel(tx, pos);
            assert forall|t: int| 0 <= t < n && in_rect(#[trigger] txs[t], pos) implies t == m by {
                if t != m {
                    assert(rects_disjoint(txs[t], txs[m as int]));
                }
            }
        }
    }
}

/// The header of the metadata counts its textures, the canvas has rows, and every
/// texture has a haze palette of at most 256 entries and a rectangle within the canvas.
pub open spec fn meta_within_canvas(meta: JamMeta) -> bool {
    let txs = meta_records(meta.textures@);
    &&& meta.num_textures == meta.textures@.len()
    &&& meta.canvas_h > 0
    &&& forall|t: int| 0 <= t < txs.len() ==> {
        &&& within_row(#[trigger] txs[t])
        &&& txs[t].top + txs[t].height <= meta.canvas_h
        &&& txs[t].quarter_palette_size <= 256
    }
}

/// The metadata describes an archive that decodes back to its images: the header
/// counts its textures, the canvas has rows, every haze palette has at most 256
/// entries, and the texture rectangles lie within the canvas without overlapping
/// (an empty rectangle overlaps nothing).
pub open spec fn decodable_meta(meta: JamMeta) -> bool {
    let txs = meta_records(meta.textures@);
    &&& meta_within_canvas(meta)
    &&& forall|a: int, b: int| 0 <= a < txs.len() && 0 <= b < txs.len() && a != b
        ==> rects_disjoint(#[trigger] txs[a], #[trigger] txs[b])
}

proof fn lemma_lo_hi(v: u16)
    ensures
        (v % 256) as u8 as int + 256 * ((v / 256) as u8 as int) == v,
{
}

/// Byte `j` of the record of texture `t` in the layout.
proof fn lemma_layout_record_byte(m: JamMeta, pal: Seq<u8>, canvas: Seq<u8>, t: int, j: int)
    requires
        m.num_textures == m.textures@.len(),
        0 <= t < m.textures@.len(),
        0 <= j < 32,
    ensures
        jam_bytes(m, pal, canvas)[record_offset(t) + j] == record_byte(m.textures@[t].tx, j),
{
    lemma_row_col(32 * t + j, 32, t, j);
}

/// The record of texture `t` in the layout reads back as the record of `m`.
proof fn lemma_layout_record(m: JamMeta, pal: Seq<u8>, canvas: Seq<u8>, t: int, tx: JamTexture)
    requires
        m.num_textures == m.textures@.len(),
        0 <= t < m.textures@.len(),
        texture_from_bytes(tx, jam_bytes(m, pal, canvas), record_offset(t)),
    ensures
        tx == m.textures@[t].tx,
{
    let l = jam_bytes(m, pal, canvas);
    let o = record_offset(t);
    assert forall|j: int| 0 <= j < 32 implies #[trigger] l[o + j] == record_byte(m.textures@[t].tx, j) by {
        lemma_layout_record_byte(m, pal, canvas, t, j);
    }
    lemma_record_reads_back(l, o, m.textures@[t].tx, tx);
}

/// Bytes that hold the record of `r` read back as `r`.
proof fn lemma_record_reads_back(b: Seq<u8>, o: int, r: JamTexture, tx: JamTexture)
    requires
        0 <= o,
        o + 32 <= b.len(),
        forall|j: int| 0 <= j < 32 ==> #[trigger] b[o + j] == record_byte(r, j),
        texture_from_bytes(tx, b, o),
    ensures
        tx == r,
{
    assert(b[o + 0] == record_byte(r, 0) && b[o + 1] == record_byte(r, 1));
    assert(b[o + 22] == record_byte(r, 22) && b[o + 23] == record_byte(r, 23));
    assert(b[o + 2] == record_byte(r, 2) && b[o + 3] == record_byte(r, 3));
    lemma_lo_hi(r.unk02);
    assert(b[o + 4] == record_byte(r, 4) && b[o + 5] == record_byte(r, 5));
    lemma_lo_hi(r.width);
    assert(b[o + 6] == record_byte(r, 6) && b[o + 7] == record_byte(r, 7));
    lemma_lo_hi(r.height);
    assert(b[o + 8] == record_byte(r, 8) && b[o + 9] == record_byte(r, 9));
    lemma_lo_hi(r.unk08);
    assert(b[o + 10] == record_byte(r, 10) && b[o + 11] == record_byte(r, 11));
    lemma_lo_hi(r.unk0a);
    assert(b[o + 12] == record_byte(r, 12) && b[o + 13] == record_byte(r, 13));
    lemma_lo_hi(r.image_ptr);
    assert(b[o + 14] == record_byte(r, 14) && b[o + 15] == record_byte(r, 15));
    lemma_lo_hi(r.unk0e);
    assert(b[o + 16] == record_byte(r, 16) && b[o + 17] == record_byte(r, 17));
    lemma_lo_hi(r.quarter_palette_size);
    assert(b[o + 18] == record_byte(r, 18) && b[o + 19] == record_byte(r, 19));
    lemma_lo_hi(r.texture_id);
    assert(b[o + 20] == record_byte(r, 20) && b[o + 21] == record_byte(r, 21));
    lemma_lo_hi(r.transparent);
    broadcast use vstd::array::group_array_axioms;
    assert forall|i: int| 0 <= i < 8 implies tx.unk18[i] == r.unk18[i] by {
        assert(b[o + (24 + i)] == record_byte(r, 24 + i));
        vstd::array::lemma_array_index(tx.unk18, i);
        vstd::array::lemma_array_index(r.unk18, i);
        assert(tx.unk18@[i] == b.subrange(o + 24, o + 32)[i]);
    }
    assert(tx.unk18 =~= r.unk18);
}

/// The header of the layout reads back as the counts of `m`.
proof fn lemma_layout_header(m: JamMeta, pal: Seq<u8>, canvas: Seq<u8>)
    requires
        m.num_textures == m.textures@.len(),
    ensures
        jam_bytes(m, pal, canvas).len() == 4 + 32 * m.textures@.len() + pal.len() + canvas.len(),
        hdr_num_textures(jam_bytes(m, pal, canvas)) == m.num_textures,
        hdr_canvas_h(jam_bytes(m, pal, canvas)) == m.canvas_h,
{
    lemma_lo_hi(m.num_textures);
    lemma_lo_hi(m.canvas_h);
}

/// The haze palette size in the layout's record of texture `t` is that of `m`.
proof fn lemma_layout_qps(m: JamMeta, pal: Seq<u8>, canvas: Seq<u8>, t: int)
    requires
        m.num_textures == m.textures@.len(),
        0 <= t < m.textures@.len(),
    ensures
        record_qps(jam_bytes(m, pal, canvas), t) == m.textures@[t].tx.quarter_palette_size,
{
    lemma_layout_record_byte(m, pal, canvas, t, 16);
    lemma_layout_record_byte(m, pal, canvas, t, 17);
    lemma_lo_hi(m.textures@[t].tx.quarter_palette_size);
}

/// The palette sizes that parsing sums over the layout are the palette offsets of `m`.
proof fn lemma_layout_palette_bytes(m: JamMeta, pal: Seq<u8>, canvas: Seq<u8>, k: nat)
    requires
        m.num_textures == m.textures@.len(),
        k <= m.textures@.len(),
    ensures
        palette_bytes(jam_bytes(m, pal, canvas), k) == palette_offset(meta_records(m.textures@), k),
        (forall|t: int| 0 <= t < k ==> (#[trigger] m.textures@[t]).tx.quarter_palette_size <= 256)
            ==> first_oversized(jam_bytes(m, pal, canvas), k) is None,
    decreases k,
{
    if k > 0 {
        lemma_layout_palette_bytes(m, pal, canvas, (k - 1) as nat);
        lemma_layout_qps(m, pal, canvas, k - 1);
        assert(meta_records(m.textures@)[k - 1] == m.textures@[k - 1].tx);
    }
}

/// When every palette has its haze palette size as length, the palette block up to
/// texture `k` is as long as the palette offset of texture `k`.
proof fn lemma_palette_block_offset(mts: Seq<MetaTexture>, k: nat)
    requires
        k <= mts.len(),
        forall|t: int| 0 <= t < k ==> (#[trigger] mts[t]).palette@.len() == mts[t].tx.quarter_palette_size,
    ensures
        palette_block(mts, k).len() == palette_offset(meta_records(mts), k),
    decreases k,
{
    if k > 0 {
        lemma_palette_block_offset(mts, (k - 1) as nat);
        assert(meta_records(mts)[k - 1] == mts[k - 1].tx);
        assert(mts[k - 1].palette@.len() == mts[k - 1].tx.quarter_palette_size);
    }
}

/// Within the palette block, the first copy of the palette of texture `t` starts
/// where the palettes of the textures before it end.
proof fn lemma_palette_block_slice(mts: Seq<MetaTexture>, n: nat, t: int)
    requires
        0 <= t < n <= mts.len(),
    ensures
        palette_block(mts, (t + 1) as nat).len() <= palette_block(mts, n).len(),
        palette_block(mts, n).subrange(
            palette_block(mts, t as nat).len() as int,
            (palette_block(mts, t as nat).len() + mts[t].palette@.len()) as int,
        ) == mts[t].palette@,
    decreases n,
{
    let b = palette_block(mts, n);
    let bt = palette_block(mts, t as nat);
    let p = mts[t].palette@;
    if n == t + 1 {
        assert(b.subrange(bt.len() as int, (bt.len() + p.len()) as int) =~= p);
    } else {
        lemma_palette_block_slice(mts, (n - 1) as nat, t);
        let prev = palette_block(mts, (n - 1) as nat);
        assert(b.subrange(bt.len() as int, (bt.len() + p.len()) as int)
            =~= prev.subrange(bt.len() as int, (bt.len() + p.len()) as int));
    }
}

proof fn lemma_no_size_mismatch(mts: Seq<MetaTexture>, imgs: Seq<Seq<u8>>, n: nat, t: int)
    requires
        first_size_mismatch(mts, imgs, n) is None,
        0 <= t < n,
    ensures
        imgs[t].len() == texel_count(mts[t].tx),
    decreases n,
{
    if t < n - 1 {
        lemma_no_size_mismatch(mts, imgs, (n - 1) as nat, t);
    }
}

/// What reading back the layout needs to know of each texture after encoding.
pub open spec fn layout_texture_facts(meta: JamMeta, imgs: Seq<Seq<u8>>, m: JamMeta, t: int) -> bool {
    let tx = m.textures@[t].tx;
    let q = repalettized_qps(meta.textures@[t].tx.quarter_palette_size, imgs[t]);
    &&& tx.quarter_palette_size == q
    &&& q <= 256
    &&& distinct_colors(imgs[t]).len() <= q
    &&& m.textures@[t].palette@ == local_palette(imgs[t], q)
    &&& m.textures@[t].palette@.len() == q
    &&& imgs[t].len() == texel_count(tx)
    &&& texels_within(tx, 256 * m.canvas_h)
}

/// What the law needs to know of each texture after encoding.
spec fn encoded_texture_facts(meta: JamMeta, imgs: Seq<Seq<u8>>, m: JamMeta, t: int) -> bool {
    let tx = m.textures@[t].tx;
    &&& layout_texture_facts(meta, imgs, m, t)
    &&& within_row(tx)
    &&& tx.top + tx.height <= m.canvas_h
}

/// The hypotheses under which decoding an encoded archive reads back its header,
/// records and palettes: the header counts the textures, the canvas has rows,
/// every haze palette has at most 256 entries, and `encode`, called as its
/// contract admits, succeeded.
pub open spec fn layout_hyps(meta: JamMeta, imgs: Seq<Seq<u8>>, m: JamMeta) -> bool {
    &&& meta.num_textures == meta.textures@.len()
    &&& meta.canvas_h > 0
    &&& forall|t: int| 0 <= t < meta.textures@.len() ==> (#[trigger] meta.textures@[t]).tx.quarter_palette_size <= 256
    &&& encode_in_bounds(meta, imgs)
    &&& encode_error(meta, imgs) is None
    &&& repalettized(meta, imgs, m)
}

proof fn lemma_layout_texture_facts(meta: JamMeta, imgs: Seq<Seq<u8>>, m: JamMeta, t: int)
    requires
        layout_hyps(meta, imgs, m),
        0 <= t < meta.textures@.len(),
    ensures
        layout_texture_facts(meta, imgs, m, t),
{
    let n = meta.textures@.len();
    let mt = meta.textures@[t];
    assert(repalettized_texture(mt, imgs[t], m.textures@[t]));
    lemma_distinct_colors_at_most_256(imgs[t]);
    lemma_no_size_mismatch(meta.textures@, imgs, n as nat, t);
    if first_size_mismatch(meta.textures@, imgs, (t + 1) as nat) is Some {
        lemma_first_size_mismatch_stable(meta.textures@, imgs, (t + 1) as nat, n as nat);
    }
    assert(texels_within(mt.tx, 256 * meta.canvas_h));
}

/// `c` keeps its length when the images of the first `n` textures, each lying
/// within it, are painted.
proof fn lemma_paint_canvas_len(mts: Seq<MetaTexture>, imgs: Seq<Seq<u8>>, c: Seq<u8>, n: nat)
    requires
        n <= mts.len(),
        forall|t: int| 0 <= t < n ==> texels_within(#[trigger] mts[t].tx, c.len() as int),
    ensures
        paint_canvas(mts, imgs, c, n).len() == c.len(),
    decreases n,
{
    if n > 0 {
        lemma_paint_canvas_len(mts, imgs, c, (n - 1) as nat);
        let tx = mts[n - 1].tx;
        lemma_paint_texels_len(paint_canvas(mts, imgs, c, (n - 1) as nat), tx, imgs[n - 1], texel_count(tx));
    }
}

/// The hypotheses of the round-trip law include those of reading back the layout.
proof fn lemma_roundtrip_layout_hyps(meta: JamMeta, imgs: Seq<Seq<u8>>, m: JamMeta)
    requires
        roundtrip_hyps(meta, imgs, m),
    ensures
        layout_hyps(meta, imgs, m),
{
    lemma_decodable_meta_encodes(meta, imgs);
    assert forall|t: int| 0 <= t < meta.textures@.len()
        implies (#[trigger] meta.textures@[t]).tx.quarter_palette_size <= 256 by {
        assert(meta_records(meta.textures@)[t] == meta.textures@[t].tx);
    }
}

proof fn lemma_encoded_texture_facts(meta: JamMeta, imgs: Seq<Seq<u8>>, m: JamMeta, t: int)
    requires
        decodable_meta(meta),
        encode_error(meta, imgs) is None,
        repalettized(meta, imgs, m),
        0 <= t < meta.textures@.len(),
    ensures
        encoded_texture_facts(meta, imgs, m, t),
{
    lemma_roundtrip_layout_hyps(meta, imgs, m);
    lemma_layout_texture_facts(meta, imgs, m, t);
    let n = meta.textures@.len();
    let mt = meta.textures@[t];
    let tx = m.textures@[t].tx;
    assert(repalettized_texture(mt, imgs[t], m.textures@[t]));
    assert(meta_records(meta.textures@)[t] == mt.tx);
    lemma_distinct_colors_at_most_256(imgs[t]);
    lemma_no_size_mismatch(meta.textures@, imgs, n as nat, t);
    if tx.height > 0 && tx.width > 0 {
        assert((tx.top + tx.height - 1) * 256 + tx.left + tx.width <= 256 * m.canvas_h);
    }
}

/// The textures of the encoded metadata lie in separate regions of its canvas.
proof fn lemma_encoded_regions(meta: JamMeta, imgs: Seq<Seq<u8>>, m: JamMeta)
    requires
        decodable_meta(meta),
        encode_error(meta, imgs) is None,
        repalettized(meta, imgs, m),
    ensures
        separate_regions(meta_records(m.textures@), m.textures@.len(), 256 * m.canvas_h),
{
    let txs = meta_records(m.textures@);
    let mtxs = meta_records(meta.textures@);
    assert forall|t: int| 0 <= t < m.textures@.len()
        implies within_row(#[trigger] txs[t]) && texels_within(txs[t], 256 * m.canvas_h) by {
        lemma_encoded_texture_facts(meta, imgs, m, t);
    }
    assert forall|a: int, b: int| 0 <= a < m.textures@.len() && 0 <= b < m.textures@.len() && a != b
        implies rects_disjoint(#[trigger] txs[a], #[trigger] txs[b]) by {
        assert(repalettized_texture(meta.textures@[a], imgs[a], m.textures@[a]));
        assert(repalettized_texture(meta.textures@[b], imgs[b], m.textures@[b]));
        assert(rects_disjoint(mtxs[a], mtxs[b]));
    }
}

/// The hypotheses of the round-trip law.
spec fn roundtrip_hyps(meta: JamMeta, imgs: Seq<Seq<u8>>, m: JamMeta) -> bool {
    &&& decodable_meta(meta)
    &&& encode_error(meta, imgs) is None
    &&& repalettized(meta, imgs, m)
}

/// The decrypted bytes of the encoded archive of `m`.
pub open spec fn encoded_plain(m: JamMeta, imgs: Seq<Seq<u8>>) -> Seq<u8> {
    jam_layout(m, local_images(m, imgs))
}

/// The decrypted bytes of an encoded archive parse without error, into its palette
/// block and painted canvas.
pub(crate) proof fn lemma_roundtrip_parses(meta: JamMeta, imgs: Seq<Seq<u8>>, m: JamMeta)
    requires
        layout_hyps(meta, imgs, m),
    ensures
        jam_parse_error(encoded_plain(m, imgs)) is None,
        hdr_num_textures(encoded_plain(m, imgs)) == m.textures@.len(),
        canvas_start(encoded_plain(m, imgs)) == 4 + 32 * m.textures@.len()
            + palette_block(m.textures@, m.textures@.len()).len(),
        canvas_bytes(encoded_plain(m, imgs))
            == paint_canvas(m.textures@, local_images(m, imgs), blank_canvas(m), m.textures@.len()).len(),
        forall|t: int| 0 <= t < m.textures@.len() ==> #[trigger] layout_texture_facts(meta, imgs, m, t),
{
    let n = meta.textures@.len();
    let locals = local_images(m, imgs);
    let pal = palette_block(m.textures@, n);
    let canvas = paint_canvas(m.textures@, locals, blank_canvas(m), n);
    let l = encoded_plain(m, imgs);
    assert(l == jam_bytes(m, pal, canvas));
    lemma_layout_header(m, pal, canvas);
    assert forall|t: int| 0 <= t < n implies #[trigger] layout_texture_facts(meta, imgs, m, t) by {
        lemma_layout_texture_facts(meta, imgs, m, t);
    }
    assert forall|t: int| 0 <= t < n implies (#[trigger] m.textures@[t]).tx.quarter_palette_size <= 256 by {
        assert(layout_texture_facts(meta, imgs, m, t));
    }
    assert forall|t: int| 0 <= t < n implies (#[trigger] m.textures@[t]).palette@.len()
        == m.textures@[t].tx.quarter_palette_size by {
        assert(layout_texture_facts(meta, imgs, m, t));
    }
    assert forall|t: int| 0 <= t < n implies texels_within(#[trigger] m.textures@[t].tx, blank_canvas(m).len() as int) by {
        assert(layout_texture_facts(meta, imgs, m, t));
    }
    lemma_layout_palette_bytes(m, pal, canvas, n as nat);
    lemma_palette_block_offset(m.textures@, n as nat);
    lemma_paint_canvas_len(m.textures@, locals, blank_canvas(m), n as nat);
}

/// Parsing the decrypted bytes of an encoded archive gives the records of `m`, its
/// palette block and its painted canvas.
proof fn lemma_roundtrip_reads_back(meta: JamMeta, imgs: Seq<Seq<u8>>, m: JamMeta, stem: Seq<char>, p: JamParsed)
    requires
        layout_hyps(meta, imgs, m),
        jam_parsed_from(p, stem, encoded_plain(m, imgs)),
    ensures
        p.textures@ == meta_records(m.textures@),
        p.palette_data@ == palette_block(m.textures@, m.textures@.len()),
        p.canvas@ == paint_canvas(m.textures@, local_images(m, imgs), blank_canvas(m), m.textures@.len()),
{
    let n = meta.textures@.len();
    let locals = local_images(m, imgs);
    let pal = palette_block(m.textures@, n);
    let canvas = paint_canvas(m.textures@, locals, blank_canvas(m), n);
    let txs = meta_records(m.textures@);
    lemma_roundtrip_parses(meta, imgs, m);
    assert(encoded_plain(m, imgs) == jam_bytes(m, pal, canvas));
    lemma_layout_header(m, pal, canvas);
    assert forall|t: int| 0 <= t < n implies #[trigger] p.textures@[t] == txs[t] by {
        lemma_layout_record(m, pal, canvas, t, p.textures@[t]);
    }
    assert(p.textures@ =~= txs);
    assert(p.palette_data@ =~= pal);
    assert(p.canvas@ =~= canvas);
}

/// The palette of every texture of `m` lies in the palette block, at its offset.
proof fn lemma_roundtrip_palettes(meta: JamMeta, imgs: Seq<Seq<u8>>, m: JamMeta)
    requires
        layout_hyps(meta, imgs, m),
    ensures
        forall|t: int| #![trigger meta_records(m.textures@)[t]] 0 <= t < m.textures@.len() ==> {
            let txs = meta_records(m.textures@);
            let pal = palette_block(m.textures@, m.textures@.len());
            let off = palette_offset(txs, t as nat);
            &&& off + txs[t].quarter_palette_size <= pal.len()
            &&& pal.subrange(off as int, off + txs[t].quarter_palette_size) == m.textures@[t].palette@
        },
{
    let n = m.textures@.len();
    let txs = meta_records(m.textures@);
    lemma_roundtrip_parses(meta, imgs, m);
    assert forall|t: int| 0 <= t < n implies (#[trigger] m.textures@[t]).palette@.len()
        == m.textures@[t].tx.quarter_palette_size by {
        assert(layout_texture_facts(meta, imgs, m, t));
    }
    assert forall|t: int| #![trigger meta_records(m.textures@)[t]] 0 <= t < n implies {
        let pal = palette_block(m.textures@, n);
        let off = palette_offset(txs, t as nat);
        &&& off + txs[t].quarter_palette_size <= pal.len()
        &&& pal.subrange(off as int, off + txs[t].quarter_palette_size) == m.textures@[t].palette@
    } by {
        lemma_palette_block_offset(m.textures@, t as nat);
        lemma_palette_block_offset(m.textures@, (t + 1) as nat);
        lemma_palette_block_slice(m.textures@, n as nat, t);
    }
}

/// After painting local indices and converting them back, the position of pixel
/// `k` of texture `t` holds the global index that its local index stands for.
proof fn lemma_roundtrip_pixel(
    mts: Seq<MetaTexture>,
    locals: Seq<Seq<u8>>,
    c0: Seq<u8>,
    pal: Seq<u8>,
    t: int,
    k: int,
)
    requires
        separate_regions(meta_records(mts), mts.len(), c0.len() as int),
        forall|s: int| 0 <= s < mts.len() ==> palette_offset(meta_records(mts), s as nat)
            + (#[trigger] meta_records(mts)[s]).quarter_palette_size <= pal.len(),
        0 <= t < mts.len(),
        0 <= k < texel_count(mts[t].tx),
        locals[t][k] < mts[t].tx.quarter_palette_size,
    ensures
        ({
            let txs = meta_records(mts);
            let g = global_canvas(txs, pal, paint_canvas(mts, locals, c0, mts.len()), mts.len());
            g[texel_index(mts[t].tx, k)] == pal[palette_offset(txs, t as nat) + locals[t][k]]
        }),
{
    let n = mts.len();
    let txs = meta_records(mts);
    let tx = mts[t].tx;
    assert(txs[t] == tx);
    let pos = texel_index(tx, k);
    lemma_texel_in_rect(tx, k);
    lemma_texel_in_bounds(tx, c0.len() as int, k);
    lemma_paint_canvas_at(mts, locals, c0, n, pos);
    let canvas = paint_canvas(mts, locals, c0, n);
    lemma_global_canvas_at(txs, pal, canvas, n, pos);
}

/// Converting the painted canvas of an encoded archive gives back image `t`.
proof fn lemma_roundtrip_image(meta: JamMeta, imgs: Seq<Seq<u8>>, m: JamMeta, t: int)
    requires
        roundtrip_hyps(meta, imgs, m),
        0 <= t < m.textures@.len(),
    ensures
        ({
            let n = m.textures@.len();
            let txs = meta_records(m.textures@);
            let canvas = paint_canvas(m.textures@, local_images(m, imgs), blank_canvas(m), n);
            let g = global_canvas(txs, palette_block(m.textures@, n), canvas, n);
            texture_image(g, txs[t]) == imgs[t]
        }),
{
    let n = m.textures@.len();
    let locals = local_images(m, imgs);
    let pal = palette_block(m.textures@, n);
    let c0 = blank_canvas(m);
    let canvas = paint_canvas(m.textures@, locals, c0, n);
    let txs = meta_records(m.textures@);
    let g = global_canvas(txs, pal, canvas, n as nat);
    let tx = txs[t];
    let q = tx.quarter_palette_size as nat;
    let off = palette_offset(txs, t as nat);
    let p = m.textures@[t].palette@;
    assert({
        &&& forall|s: int| 0 <= s < n ==> palette_offset(txs, s as nat)
            + (#[trigger] txs[s]).quarter_palette_size <= pal.len()
        &&& pal.subrange(off as int, (off + q) as int) == p
    }) by {
        lemma_roundtrip_layout_hyps(meta, imgs, m);
        lemma_roundtrip_palettes(meta, imgs, m);
    }
    assert(separate_regions(txs, n, c0.len() as int)) by {
        lemma_encoded_regions(meta, imgs, m);
    }
    assert(encoded_texture_facts(meta, imgs, m, t)) by {
        lemma_encoded_texture_facts(meta, imgs, m, t);
    }
    assert forall|k: int| 0 <= k < texel_count(tx) implies #[trigger] texture_image(g, tx)[k] == imgs[t][k] by {
        lemma_local_pixel(imgs[t], q, k);
        assert(locals[t][k] == crate::palettize::first_index(p, imgs[t][k]) as u8);
        lemma_roundtrip_pixel(m.textures@, locals, c0, pal, t, k);
        assert(pal.subrange(off as int, (off + q) as int)[locals[t][k] as int] == pal[off + locals[t][k]]);
    }
    assert(texture_image(g, tx) =~= imgs[t]);
}

/// Decoding an encoded archive gives back its header, the records of the returned
/// metadata and its palettes, each four times, whether or not the textures overlap.
///
/// This holds when the header counts the textures, the canvas has rows, every haze
/// palette has at most 256 entries, and `encode`, called as its contract admits
/// (`encode_in_bounds`), succeeded.
pub proof fn lemma_encode_decode_layout(
    meta: JamMeta,
    imgs: Seq<Seq<u8>>,
    m: JamMeta,
    jam: Seq<u8>,
    stem: Seq<char>,
    p: JamParsed,
)
    requires
        meta.num_textures == meta.textures@.len(),
        meta.canvas_h > 0,
        forall|t: int| 0 <= t < meta.textures@.len() ==> (#[trigger] meta.textures@[t]).tx.quarter_palette_size <= 256,
        encode_in_bounds(meta, imgs),
        encode_error(meta, imgs) is None,
        repalettized(meta, imgs, m),
        jam == jam_crypt(jam_layout(m, local_images(m, imgs))),
        jam_parsed_from(p, stem, jam_crypt(jam)),
    ensures
        jam_parse_error(jam_crypt(jam)) is None,
        p.num_textures == m.num_textures,
        p.canvas_h == m.canvas_h,
        p.textures@ == meta_records(m.textures@),
        p.palette_data@ == palette_block(m.textures@, m.textures@.len()),
        forall|t: int| 0 <= t < p.textures@.len() ==> {
            let off = #[trigger] palette_offset(p.textures@, t as nat);
            p.palette_data@.subrange(off as int, off + p.textures@[t].quarter_palette_size)
                == m.textures@[t].palette@
        },
        global_conversion_in_bounds(p),
{
    lemma_jam_crypt_involution(encoded_plain(m, imgs));
    assert(jam_crypt(jam) == encoded_plain(m, imgs));
    lemma_roundtrip_parses(meta, imgs, m);
    lemma_roundtrip_reads_back(meta, imgs, m, stem, p);
    lemma_roundtrip_palettes(meta, imgs, m);
    assert forall|t: int| 0 <= t < p.textures@.len() implies {
        let off = #[trigger] palette_offset(p.textures@, t as nat);
        p.palette_data@.subrange(off as int, off + p.textures@[t].quarter_palette_size)
            == m.textures@[t].palette@
    } by {
        assert(meta_records(m.textures@)[t] == p.textures@[t]);
    }
    let n = m.textures@.len();
    assert forall|t: int| 0 <= t < n implies texels_within(#[trigger] m.textures@[t].tx, blank_canvas(m).len() as int) by {
        assert(layout_texture_facts(meta, imgs, m, t));
    }
    lemma_paint_canvas_len(m.textures@, local_images(m, imgs), blank_canvas(m), n as nat);
    assert forall|t: int| 0 <= t < p.textures@.len() && #[trigger] p.textures@[t].quarter_palette_size > 0 implies {
        &&& palette_offset(p.textures@, t as nat) + p.textures@[t].quarter_palette_size <= p.palette_data@.len()
        &&& (p.textures@[t].height > 0 ==> texels_within(p.textures@[t], p.canvas@.len() as int))
    } by {
        assert(meta_records(m.textures@)[t] == p.textures@[t]);
        assert(layout_texture_facts(meta, imgs, m, t));
    }
}

/// Decoding an encoded archive gives back the metadata records, and converting
/// its canvas to global indices gives back every image that was encoded.
///
/// This holds when the header counts the textures, the canvas has rows, every haze
/// palette has at most 256 entries and the texture rectangles lie within the canvas
/// without overlapping (`decodable_meta`), and encoding succeeded.
pub proof fn lemma_encode_decode_roundtrip(
    meta: JamMeta,
    imgs: Seq<Seq<u8>>,
    m: JamMeta,
    jam: Seq<u8>,
    stem: Seq<char>,
    p: JamParsed,
)
    requires
        decodable_meta(meta),
        encode_error(meta, imgs) is None,
        repalettized(meta, imgs, m),
        jam == jam_crypt(jam_layout(m, local_images(m, imgs))),
        jam_parsed_from(p, stem, jam_crypt(jam)),
    ensures
        jam_parse_error(jam_crypt(jam)) is None,
        p.num_textures == meta.num_textures,
        p.canvas_h == meta.canvas_h,
        p.textures@ == meta_records(m.textures@),
        global_conversion_in_bounds(p),
        forall|t: int| 0 <= t < p.textures@.len() ==> texture_image(
            global_canvas(p.textures@, p.palette_data@, p.canvas@, p.textures@.len()),
            #[trigger] p.textures@[t],
        ) == imgs[t],
{
    lemma_jam_crypt_involution(encoded_plain(m, imgs));
    assert(jam_crypt(jam) == encoded_plain(m, imgs));
    lemma_roundtrip_layout_hyps(meta, imgs, m);
    lemma_roundtrip_parses(meta, imgs, m);
    lemma_roundtrip_reads_back(meta, imgs, m, stem, p);
    lemma_roundtrip_parsed(meta, imgs, m, stem, p);
}

/// What the round-trip law states of the parsed archive, given that it was parsed
/// from the decrypted bytes of the encoded archive.
proof fn lemma_roundtrip_parsed(meta: JamMeta, imgs: Seq<Seq<u8>>, m: JamMeta, stem: Seq<char>, p: JamParsed)
    requires
        roundtrip_hyps(meta, imgs, m),
        p.textures@ == meta_records(m.textures@),
        p.palette_data@ == palette_block(m.textures@, m.textures@.len()),
        p.canvas@ == paint_canvas(m.textures@, local_images(m, imgs), blank_canvas(m), m.textures@.len()),
    ensures
        global_conversion_in_bounds(p),
        forall|t: int| 0 <= t < p.textures@.len() ==> texture_image(
            global_canvas(p.textures@, p.palette_data@, p.canvas@, p.textures@.len()),
            #[trigger] p.textures@[t],
        ) == imgs[t],
{
    let n = m.textures@.len();
    let txs = meta_records(m.textures@);
    lemma_roundtrip_layout_hyps(meta, imgs, m);
    lemma_roundtrip_parses(meta, imgs, m);
    lemma_roundtrip_palettes(meta, imgs, m);
    lemma_encoded_regions(meta, imgs, m);
    lemma_paint_canvas_at(m.textures@, local_images(m, imgs), blank_canvas(m), n as nat, 0);
    assert forall|t: int| 0 <= t < n && (#[trigger] p.textures@[t]).quarter_palette_size > 0 implies {
        &&& palette_offset(p.textures@, t as nat) + p.textures@[t].quarter_palette_size <= p.palette_data@.len()
        &&& (p.textures@[t].height > 0 ==> texels_within(p.textures@[t], p.canvas@.len() as int))
    } by {
        lemma_encoded_texture_facts(meta, imgs, m, t);
        assert(txs[t] == m.textures@[t].tx);
    }
    assert forall|t: int| 0 <= t < n implies texture_image(
        global_canvas(p.textures@, p.palette_data@, p.canvas@, p.textures@.len()),
        #[trigger] p.textures@[t],
    ) == imgs[t] by {
        lemma_roundtrip_image(meta, imgs, m, t);
    }
}

proof fn lemma_encoded_palette_bytes_bound(meta: JamMeta, imgs: Seq<Seq<u8>>, k: nat)
    requires
        meta_within_canvas(meta),
        k <= meta.textures@.len(),
    ensures
        encoded_palette_bytes(meta_records(meta.textures@), imgs, k) <= 1024 * k,
    decreases k,
{
    if k > 0 {
        lemma_encoded_palette_bytes_bound(meta, imgs, (k - 1) as nat);
        lemma_distinct_colors_at_most_256(imgs[k - 1]);
        assert(meta_records(meta.textures@)[k - 1] == meta.textures@[k - 1].tx);
    }
}

/// Metadata whose rectangles lie within its canvas, whether or not they overlap,
/// meets what `encode` requires of it, for any list of as many images as it has textures.
pub proof fn lemma_decodable_meta_encodes(meta: JamMeta, imgs: Seq<Seq<u8>>)
    requires
        meta_within_canvas(meta),
        meta.textures@.len() == imgs.len(),
    ensures
        crate::encode::encode_requirements(meta, imgs),
{
    let n = meta.textures@.len();
    let txs = meta_records(meta.textures@);
    assert forall|t: int| 0 <= t < n implies texels_within(#[trigger] meta.textures@[t].tx, 256 * meta.canvas_h) by {
        assert(txs[t] == meta.textures@[t].tx);
        let tx = txs[t];
        if tx.height > 0 && tx.width > 0 {
            assert((tx.top + tx.height - 1) * 256 + tx.left + tx.width <= 256 * meta.canvas_h);
        }
    }
    lemma_encoded_palette_bytes_bound(meta, imgs, n as nat);
}

/// `a` and `b` hold the same metadata: the same names, header and records, and
/// palettes with the same entries.
pub open spec fn same_meta(a: JamMeta, b: JamMeta) -> bool {
    &&& a.stem@ == b.stem@
    &&& a.num_textures == b.num_textures
    &&& a.canvas_h == b.canvas_h
    &&& a.textures@.len() == b.textures@.len()
    &&& forall|t: int| 0 <= t < a.textures@.len() ==> {
        &&& (#[trigger] a.textures@[t]).tx == b.textures@[t].tx
        &&& a.textures@[t].png_name@ == b.textures@[t].png_name@
        &&& a.textures@[t].palette@ == b.textures@[t].palette@
    }
}

proof fn lemma_palette_block_same(a: Seq<MetaTexture>, b: Seq<MetaTexture>, n: nat)
    requires
        n <= a.len(),
        n <= b.len(),
        forall|t: int| 0 <= t < n ==> (#[trigger] a[t]).palette@ == b[t].palette@,
    ensures
        palette_block(a, n) == palette_block(b, n),
    decreases n,
{
    if n > 0 {
        lemma_palette_block_same(a, b, (n - 1) as nat);
        assert(a[n - 1].palette@ == b[n - 1].palette@);
    }
}

proof fn lemma_paint_canvas_same(a: Seq<MetaTexture>, b: Seq<MetaTexture>, imgs: Seq<Seq<u8>>, c: Seq<u8>, n: nat)
    requires
        n <= a.len(),
        n <= b.len(),
        forall|t: int| 0 <= t < n ==> (#[trigger] a[t]).tx == b[t].tx,
    ensures
        paint_canvas(a, imgs, c, n) == paint_canvas(b, imgs, c, n),
    decreases n,
{
    if n > 0 {
        lemma_paint_canvas_same(a, b, imgs, c, (n - 1) as nat);
        assert(a[n - 1].tx == b[n - 1].tx);
    }
}

/// Metadata that holds the same as other metadata lays out the same archive.
pub proof fn lemma_same_meta_layout(a: JamMeta, b: JamMeta, imgs: Seq<Seq<u8>>)
    requires
        same_meta(a, b),
    ensures
        jam_layout(a, local_images(a, imgs)) == jam_layout(b, local_images(b, imgs)),
{
    let n = a.textures@.len();
    assert(local_images(a, imgs) =~= local_images(b, imgs)) by {
        assert forall|t: int| 0 <= t < n implies local_images(a, imgs)[t] == local_images(b, imgs)[t] by {
            assert(a.textures@[t].palette@ == b.textures@[t].palette@);
        }
    }
    lemma_palette_block_same(a.textures@, b.textures@, n);
    assert(blank_canvas(a) == blank_canvas(b));
    lemma_paint_canvas_same(a.textures@, b.textures@, local_images(a, imgs), blank_canvas(a), n);
    let pal = palette_block(a.textures@, n);
    let canvas = paint_canvas(a.textures@, local_images(a, imgs), blank_canvas(a), n);
    assert(jam_bytes(a, pal, canvas) =~= jam_bytes(b, pal, canvas)) by {
        assert forall|i: int| 0 <= i < jam_bytes(a, pal, canvas).len()
            implies jam_bytes(a, pal, canvas)[i] == jam_bytes(b, pal, canvas)[i] by {
            if 4 <= i < 4 + 32 * a.num_textures && (i - 4) / 32 < n {
                assert(a.textures@[(i - 4) / 32].tx == b.textures@[(i - 4) / 32].tx);
            }
        }
    }
}

proof fn lemma_encoded_palette_bytes_again(meta: JamMeta, imgs: Seq<Seq<u8>>, m: JamMeta, k: nat)
    requires
        repalettized(meta, imgs, m),
        k <= meta.textures@.len(),
    ensures
        encoded_palette_bytes(meta_records(m.textures@), imgs, k)
            == encoded_palette_bytes(meta_records(meta.textures@), imgs, k),
    decreases k,
{
    if k > 0 {
        lemma_encoded_palette_bytes_again(meta, imgs, m, (k - 1) as nat);
        let t = k - 1;
        assert(repalettized_texture(meta.textures@[t], imgs[t], m.textures@[t]));
        assert(meta_records(m.textures@)[t] == m.textures@[t].tx);
        assert(meta_records(meta.textures@)[t] == meta.textures@[t].tx);
    }
}

/// Encoding again with the metadata that encoding returned changes nothing: the
/// images encode without error under what `encode` requires, the palettes rebuild
/// to metadata that holds the same, and so to the same archive.
pub proof fn lemma_encode_again(meta: JamMeta, imgs: Seq<Seq<u8>>, m: JamMeta, m2: JamMeta)
    requires
        encode_error(meta, imgs) is None,
        repalettized(meta, imgs, m),
        repalettized(m, imgs, m2),
    ensures
        encode_error(m, imgs) is None,
        encode_requirements(meta, imgs) ==> encode_requirements(m, imgs),
        same_meta(m2, m),
        jam_layout(m2, local_images(m2, imgs)) == jam_layout(m, local_images(m, imgs)),
{
    let n = meta.textures@.len();
    assert forall|t: int| 0 <= t < n implies {
        &&& (#[trigger] m.textures@[t]).tx.width == meta.textures@[t].tx.width
        &&& m.textures@[t].tx.height == meta.textures@[t].tx.height
        &&& m.textures@[t].tx.top == meta.textures@[t].tx.top
        &&& m.textures@[t].tx.left == meta.textures@[t].tx.left
        &&& m2.textures@[t].tx == m.textures@[t].tx
        &&& m2.textures@[t].png_name@ == m.textures@[t].png_name@
        &&& m2.textures@[t].palette@ == m.textures@[t].palette@
    } by {
        assert(repalettized_texture(meta.textures@[t], imgs[t], m.textures@[t]));
        assert(repalettized_texture(m.textures@[t], imgs[t], m2.textures@[t]));
        lemma_distinct_colors_at_most_256(imgs[t]);
    }
    lemma_first_size_mismatch_same(meta.textures@, imgs, m.textures@, imgs, n as nat);
    assert forall|k: nat| k <= n implies first_size_mismatch(meta.textures@, imgs, k)
        == #[trigger] first_size_mismatch(m.textures@, imgs, k) by {
        lemma_first_size_mismatch_same(meta.textures@, imgs, m.textures@, imgs, k);
    }
    lemma_encoded_palette_bytes_again(meta, imgs, m, n as nat);
    assert(meta_records(m.textures@).len() == n);
    assert(encoded_size(m, imgs) == encoded_size(meta, imgs));
    assert(same_meta(m2, m));
    lemma_same_meta_layout(m2, m, imgs);
}

} // verus!
