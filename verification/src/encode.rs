//! Assembling and encrypting a JAM archive from metadata and global-indexed images.

use vstd::prelude::*;
use crate::bytes::write_le16;
use crate::canvas::{lemma_row_col, lemma_texel_in_bounds, texel_count, texel_index, texels_within};
use crate::crypt::{decrypt_encrypt_jam, jam_crypt};
use crate::palettize::{
    image_views, lemma_distinct_colors_at_most_256, lemma_local_pixel, local_image,
    repalettize_textures, repalettized, repalettized_qps,
};
use crate::types::{JamError, JamMeta, JamTexture, MetaTexture, CANVAS_W};

verus! {

/// The records of a list of metadata textures.
pub open spec fn meta_records(mts: Seq<MetaTexture>) -> Seq<JamTexture> {
    mts.map_values(|mt: MetaTexture| mt.tx)
}

/// Low byte of a 16-bit value.
pub open spec fn lo_byte(v: u16) -> u8 {
    (v % 256) as u8
}

/// High byte of a 16-bit value.
pub open spec fn hi_byte(v: u16) -> u8 {
    (v / 256) as u8
}

/// Byte `j` of the 32-byte record of `tx`.
pub open spec fn record_byte(tx: JamTexture, j: int) -> u8 {
    if j == 0 { tx.left }
    else if j == 1 { tx.top }
    else if j == 2 { lo_byte(tx.unk02) }
    else if j == 3 { hi_byte(tx.unk02) }
    else if j == 4 { lo_byte(tx.width) }
    else if j == 5 { hi_byte(tx.width) }
    else if j == 6 { lo_byte(tx.height) }
    else if j == 7 { hi_byte(tx.height) }
    else if j == 8 { lo_byte(tx.unk08) }
    else if j == 9 { hi_byte(tx.unk08) }
    else if j == 10 { lo_byte(tx.unk0a) }
    else if j == 11 { hi_byte(tx.unk0a) }
    else if j == 12 { lo_byte(tx.image_ptr) }
    else if j == 13 { hi_byte(tx.image_ptr) }
    else if j == 14 { lo_byte(tx.unk0e) }
    else if j == 15 { hi_byte(tx.unk0e) }
    else if j == 16 { lo_byte(tx.quarter_palette_size) }
    else if j == 17 { hi_byte(tx.quarter_palette_size) }
    else if j == 18 { lo_byte(tx.texture_id) }
    else if j == 19 { hi_byte(tx.texture_id) }
    else if j == 20 { lo_byte(tx.transparent) }
    else if j == 21 { hi_byte(tx.transparent) }
    else if j == 22 { tx.unk16 }
    else if j == 23 { tx.unk17 }
    else { tx.unk18@[j - 24] }
}

/// The palettes of the first `n` textures, each written four times (one per haze).
pub open spec fn palette_block(mts: Seq<MetaTexture>, n: nat) -> Seq<u8>
    decreases n,
{
    if n == 0 {
        Seq::empty()
    } else {
        let p = mts[n - 1].palette@;
        palette_block(mts, (n - 1) as nat) + p + p + p + p
    }
}

/// `c` with the first `k` pixels of `img` written, one after the other, into the region of `tx`.
pub open spec fn paint_texels(c: Seq<u8>, tx: JamTexture, img: Seq<u8>, k: nat) -> Seq<u8>
    decreases k,
{
    if k == 0 {
        c
    } else {
        paint_texels(c, tx, img, (k - 1) as nat).update(texel_index(tx, k - 1), img[k - 1])
    }
}

/// `c` with the images of the first `n` textures painted into their regions, in order.
pub open spec fn paint_canvas(mts: Seq<MetaTexture>, imgs: Seq<Seq<u8>>, c: Seq<u8>, n: nat) -> Seq<u8>
    decreases n,
{
    if n == 0 {
        c
    } else {
        let tx = mts[n - 1].tx;
        paint_texels(paint_canvas(mts, imgs, c, (n - 1) as nat), tx, imgs[n - 1], texel_count(tx))
    }
}

/// The decrypted bytes of an archive with the header and records of `m`, the
/// palette block `pal` and the canvas `canvas`. The palettes start after as many
/// record slots as the header counts; a slot without a record stays zero.
pub open spec fn jam_bytes(m: JamMeta, pal: Seq<u8>, canvas: Seq<u8>) -> Seq<u8> {
    let ps = 4 + 32 * m.num_textures;
    let cs = ps + pal.len();
    Seq::new((cs + canvas.len()) as nat, |i: int|
        if i == 0 { lo_byte(m.num_textures) }
        else if i == 1 { hi_byte(m.num_textures) }
        else if i == 2 { lo_byte(m.canvas_h) }
        else if i == 3 { hi_byte(m.canvas_h) }
        else if i < ps {
            if (i - 4) / 32 < m.textures@.len() { record_byte(m.textures@[(i - 4) / 32].tx, (i - 4) % 32) } else { 0 }
        }
        else if i < cs { pal[i - ps] }
        else { canvas[i - cs] })
}

/// All `n` records fit in an archive of `total` bytes.
pub open spec fn records_fit(n: nat, total: int) -> bool {
    4 + 32 * n <= total
}

/// Offset of the first record that does not fit in an archive of `total` bytes.
pub open spec fn unfit_record_offset(total: int) -> int {
    if total < 36 {
        4
    } else {
        4 + 32 * ((total - 36) / 32 + 1)
    }
}

/// Writing the record at `th` into an archive of `total` bytes, which it overruns,
/// stops at a 16-bit field rather than at a single byte or the trailing bytes.
pub open spec fn record_overrun_in_fields(th: int, total: int) -> bool {
    th + 2 <= total < th + 22
}

/// Offset of the 16-bit field at which writing the record at `th` into an archive
/// of `total` bytes fails.
pub open spec fn record_overrun_offset(th: int, total: int) -> int {
    th + 2 * ((total - th - 2) / 2 + 1)
}

/// The blank canvas of `m`.
pub open spec fn blank_canvas(m: JamMeta) -> Seq<u8> {
    Seq::new((256 * m.canvas_h) as nat, |i: int| 0u8)
}

/// The decrypted bytes of the archive for metadata `m` and local-indexed images `imgs`:
/// header, records, palettes (each four times), then the painted canvas.
pub open spec fn jam_layout(m: JamMeta, imgs: Seq<Seq<u8>>) -> Seq<u8> {
    let n = m.textures@.len();
    jam_bytes(m, palette_block(m.textures@, n), paint_canvas(m.textures@, imgs, blank_canvas(m), n))
}

/// The local-indexed images that go with the rebuilt palettes of `m`.
pub open spec fn local_images(m: JamMeta, imgs: Seq<Seq<u8>>) -> Seq<Seq<u8>> {
    Seq::new(m.textures@.len(), |t: int| local_image(m.textures@[t].palette@, imgs[t]))
}

/// The first of the first `n` textures whose image does not hold width × height pixels.
pub open spec fn first_size_mismatch(mts: Seq<MetaTexture>, imgs: Seq<Seq<u8>>, n: nat) -> Option<nat>
    decreases n,
{
    if n == 0 {
        None
    } else {
        match first_size_mismatch(mts, imgs, (n - 1) as nat) {
            Some(t) => Some(t),
            None => if imgs[n - 1].len() != texel_count(mts[n - 1].tx) {
                Some((n - 1) as nat)
            } else {
                None
            },
        }
    }
}

/// The error that encoding `meta` with the global-indexed images `imgs` reports, if any.
pub open spec fn encode_error(meta: JamMeta, imgs: Seq<Seq<u8>>) -> Option<JamError> {
    let n = meta.textures@.len();
    let total = encoded_size(meta, imgs) as int;
    if n != imgs.len() {
        Some(JamError::TextureCountMismatch)
    } else if first_size_mismatch(meta.textures@, imgs, n) is Some {
        let t = first_size_mismatch(meta.textures@, imgs, n)->0 as int;
        let tx = meta.textures@[t].tx;
        Some(JamError::ImageSizeMismatch {
            texture: t as usize,
            len: imgs[t].len() as usize,
            width: tx.width as usize,
            height: tx.height as usize,
        })
    } else if !records_fit(n, total) {
        Some(JamError::WriteOutOfRange {
            offset: record_overrun_offset(unfit_record_offset(total), total) as usize,
        })
    } else {
        None
    }
}

/// Bytes of the palettes after repalettization of the first `n` textures with records `txs`.
pub open spec fn encoded_palette_bytes(txs: Seq<JamTexture>, imgs: Seq<Seq<u8>>, n: nat) -> nat
    decreases n,
{
    if n == 0 {
        0
    } else {
        encoded_palette_bytes(txs, imgs, (n - 1) as nat)
            + 4 * repalettized_qps(txs[n - 1].quarter_palette_size, imgs[n - 1])
    }
}

/// Size of the archive that encoding textures with records `txs`, a header that
/// counts `num_textures` and a canvas of `canvas_h` rows builds from the images `imgs`.
pub open spec fn encoded_size_of(num_textures: u16, canvas_h: u16, txs: Seq<JamTexture>, imgs: Seq<Seq<u8>>) -> nat {
    4 + 32 * (num_textures as nat) + encoded_palette_bytes(txs, imgs, txs.len()) + 256 * (canvas_h as nat)
}

/// Size of the archive that encoding `meta` with `imgs` builds.
pub open spec fn encoded_size(meta: JamMeta, imgs: Seq<Seq<u8>>) -> nat {
    encoded_size_of(meta.num_textures, meta.canvas_h, meta_records(meta.textures@), imgs)
}

/// Writing the records of `meta` into its archive either succeeds or fails at a
/// 16-bit field (the other failures would abort).
pub open spec fn records_written_or_refused(meta: JamMeta, imgs: Seq<Seq<u8>>) -> bool {
    let total = encoded_size(meta, imgs) as int;
    records_fit(meta.textures@.len(), total)
        || record_overrun_in_fields(unfit_record_offset(total), total)
}

/// Each texture that painting reaches (all images up to it have the right size)
/// lies within the canvas of `meta`.
pub open spec fn encode_in_bounds(meta: JamMeta, imgs: Seq<Seq<u8>>) -> bool {
    meta.textures@.len() == imgs.len() ==> forall|t: int| 0 <= t < meta.textures@.len()
        ==> (first_size_mismatch(meta.textures@, imgs, (t + 1) as nat) is None
        ==> texels_within(#[trigger] meta.textures@[t].tx, 256 * meta.canvas_h))
}

/// A vector of `len` zero bytes.
fn zeroed(len: usize) -> (v: Vec<u8>)
    ensures
        v@ == Seq::new(len as nat, |i: int| 0u8),
{
    let mut v: Vec<u8> = Vec::with_capacity(len);
    let mut i: usize = 0;
    while i < len
        invariant
            i <= len,
            v@ =~= Seq::new(i as nat, |j: int| 0u8),
        decreases len - i,
    {
        v.push(0);
        i = i + 1;
    }
    v
}

/// Appends the bytes of `src` to `dst`.
fn append_bytes(dst: &mut Vec<u8>, src: &[u8])
    ensures
        final(dst)@ == old(dst)@ + src@,
{
    let ghost d0 = dst@;
    let mut i: usize = 0;
    while i < src.len()
        invariant
            i <= src@.len(),
            dst@ =~= d0 + src@.take(i as int),
        decreases src@.len() - i,
    {
        dst.push(src[i]);
        i = i + 1;
    }
    assert(src@.take(src@.len() as int) =~= src@);
}

/// `p` written `k` times in a row.
pub open spec fn repeat_bytes(p: Seq<u8>, k: nat) -> Seq<u8>
    decreases k,
{
    if k == 0 {
        Seq::empty()
    } else {
        repeat_bytes(p, (k - 1) as nat) + p
    }
}

/// The palette block of `mts`; fails when a palette's length differs from its haze palette size.
fn build_palette_data(mts: &Vec<MetaTexture>) -> (r: Result<Vec<u8>, JamError>)
    ensures
        match r {
            Ok(p) => p@ == palette_block(mts@, mts@.len()),
            Err(e) => e == JamError::InvalidPaletteSize
                && exists|t: int| 0 <= t < mts@.len()
                    && #[trigger] mts@[t].palette@.len() != mts@[t].tx.quarter_palette_size,
        },
{
    let mut palette_data: Vec<u8> = Vec::new();
    let mut t: usize = 0;
    while t < mts.len()
        invariant
            t <= mts@.len(),
            palette_data@ == palette_block(mts@, t as nat),
        decreases mts@.len() - t,
    {
        let mt = &mts[t];
        let qps = mt.tx.quarter_palette_size as usize;
        if mt.palette.len() != qps {
            assert(mts@[t as int].palette@.len() != mts@[t as int].tx.quarter_palette_size);
            return Err(JamError::InvalidPaletteSize);
        }
        let mut haze: usize = 0;
        let ghost before = palette_data@;
        while haze < 4
            invariant
                haze <= 4,
                palette_data@ == before + repeat_bytes(mt.palette@, haze as nat),
            decreases 4 - haze,
        {
            append_bytes(&mut palette_data, mt.palette.as_slice());
            proof {
                assert(before + repeat_bytes(mt.palette@, (haze + 1) as nat)
                    =~= before + repeat_bytes(mt.palette@, haze as nat) + mt.palette@);
            }
            haze = haze + 1;
        }
        proof {
            let p = mt.palette@;
            reveal_with_fuel(repeat_bytes, 5);
            assert(repeat_bytes(p, 4) =~= p + p + p + p);
            assert(palette_block(mts@, (t + 1) as nat) =~= before + repeat_bytes(p, 4));
        }
        t = t + 1;
    }
    Ok(palette_data)
}

pub(crate) proof fn lemma_paint_texels_len(c: Seq<u8>, tx: JamTexture, img: Seq<u8>, k: nat)
    requires
        k <= texel_count(tx),
        texels_within(tx, c.len() as int),
    ensures
        paint_texels(c, tx, img, k).len() == c.len(),
    decreases k,
{
    if k > 0 {
        lemma_paint_texels_len(c, tx, img, (k - 1) as nat);
        lemma_texel_in_bounds(tx, c.len() as int, k - 1);
    }
}

/// Writes the local-indexed image `img` of texture number `t` into its region of `canvas`;
/// fails at the first pixel that is not below the haze palette size.
fn paint_image(canvas: &mut Vec<u8>, tx: &JamTexture, img: &Vec<u8>, t: usize) -> (r: Result<(), JamError>)
    requires
        img@.len() == texel_count(*tx),
        texels_within(*tx, old(canvas)@.len() as int),
    ensures
        final(canvas)@.len() == old(canvas)@.len(),
        r is Ok ==> final(canvas)@ == paint_texels(old(canvas)@, *tx, img@, texel_count(*tx)),
        (forall|k: int| 0 <= k < img@.len() ==> img@[k] < tx.quarter_palette_size) ==> r is Ok,
{
    let w = tx.width as usize;
    let h = tx.height as usize;
    let qps = tx.quarter_palette_size as usize;
    let ghost c0 = canvas@;
    let mut yy: usize = 0;
    while yy < h
        invariant
            w == tx.width, h == tx.height, qps == tx.quarter_palette_size,
            img@.len() == texel_count(*tx),
            texels_within(*tx, c0.len() as int),
            yy <= h,
            canvas@.len() == c0.len(),
            canvas@ == paint_texels(c0, *tx, img@, (yy * w) as nat),
            c0 == old(canvas)@,
        decreases h - yy,
    {
        let mut xx: usize = 0;
        while xx < w
            invariant
                w == tx.width, h == tx.height, qps == tx.quarter_palette_size,
                img@.len() == texel_count(*tx),
                texels_within(*tx, c0.len() as int),
                yy < h,
                xx <= w,
                canvas@.len() == c0.len(),
                canvas@ == paint_texels(c0, *tx, img@, (yy * w + xx) as nat),
                c0 == old(canvas)@,
            decreases w - xx,
        {
            proof {
                assert(yy * w + xx < h * w <= 65535 * 65535) by (nonlinear_arith)
                    requires xx < w, yy < h, w <= 65535, h <= 65535;
            }
            let k = yy * w + xx;
            proof {
                lemma_row_col(k as int, w as int, yy as int, xx as int);
                assert(h * w == texel_count(*tx)) by (nonlinear_arith)
                    requires h == tx.height, w == tx.width;
                lemma_texel_in_bounds(*tx, c0.len() as int, k as int);
            }
            let idx = img[k] as usize;
            if idx >= qps {
                return Err(JamError::IndexOutOfRange { texture: t, x: xx, y: yy, index: idx, qps });
            }
            let dst = (tx.top as usize + yy) * CANVAS_W + tx.left as usize + xx;
            canvas.set(dst, idx as u8);
            xx = xx + 1;
        }
        assert((yy + 1) * w == yy * w + w) by (nonlinear_arith);
        yy = yy + 1;
    }
    assert(h * w == texel_count(*tx)) by (nonlinear_arith)
        requires h == tx.height, w == tx.width;
    Ok(())
}

pub(crate) proof fn lemma_first_size_mismatch_stable(mts: Seq<MetaTexture>, imgs: Seq<Seq<u8>>, a: nat, b: nat)
    requires
        a <= b,
        first_size_mismatch(mts, imgs, a) is Some,
    ensures
        first_size_mismatch(mts, imgs, b) == first_size_mismatch(mts, imgs, a),
    decreases b - a,
{
    if a < b {
        lemma_first_size_mismatch_stable(mts, imgs, a, (b - 1) as nat);
    }
}

/// The canvas of `m` with the local-indexed images `locals` painted in, texture by
/// texture; fails at the first image whose size is not the width times the height
/// of its texture.
fn build_canvas(m: &JamMeta, locals: &Vec<Vec<u8>>) -> (r: Result<Vec<u8>, JamError>)
    requires
        locals@.len() == m.textures@.len(),
        forall|t: int| 0 <= t < m.textures@.len()
            ==> (first_size_mismatch(m.textures@, image_views(locals@), (t + 1) as nat) is None
            ==> texels_within(#[trigger] m.textures@[t].tx, 256 * m.canvas_h)),
        forall|t: int, k: int| 0 <= t < locals@.len() && 0 <= k < locals@[t]@.len()
            ==> #[trigger] locals@[t]@[k] < m.textures@[t].tx.quarter_palette_size,
    ensures
        ({
            let n = m.textures@.len();
            let imgs = image_views(locals@);
            match r {
                Ok(c) => first_size_mismatch(m.textures@, imgs, n) is None
                    && c@.len() == 256 * m.canvas_h
                    && c@ == paint_canvas(m.textures@, imgs, blank_canvas(*m), n),
                Err(e) => first_size_mismatch(m.textures@, imgs, n) is Some && ({
                    let t = first_size_mismatch(m.textures@, imgs, n)->0 as int;
                    let tx = m.textures@[t].tx;
                    e == JamError::ImageSizeMismatch {
                        texture: t as usize,
                        len: imgs[t].len() as usize,
                        width: tx.width as usize,
                        height: tx.height as usize,
                    }
                }),
            }
        }),
{
    let ghost imgs = image_views(locals@);
    let n = m.textures.len();
    let canvas_len = CANVAS_W * (m.canvas_h as usize);
    let mut canvas = zeroed(canvas_len);
    let mut t: usize = 0;
    while t < n
        invariant
            n == m.textures@.len(),
            locals@.len() == n,
            imgs == image_views(locals@),
            forall|t: int| 0 <= t < m.textures@.len()
                ==> (first_size_mismatch(m.textures@, image_views(locals@), (t + 1) as nat) is None
                ==> texels_within(#[trigger] m.textures@[t].tx, 256 * m.canvas_h)),
            forall|t: int, k: int| 0 <= t < locals@.len() && 0 <= k < locals@[t]@.len()
                ==> #[trigger] locals@[t]@[k] < m.textures@[t].tx.quarter_palette_size,
            t <= n,
            first_size_mismatch(m.textures@, imgs, t as nat) is None,
            canvas@ == paint_canvas(m.textures@, imgs, blank_canvas(*m), t as nat),
            canvas@.len() == 256 * m.canvas_h,
        decreases n - t,
    {
        let mt = &m.textures[t];
        let img = &locals[t];
        let w = mt.tx.width as usize;
        let h = mt.tx.height as usize;
        assert(imgs[t as int] == img@);
        proof {
            assert(w * h <= 65535 * 65535) by (nonlinear_arith)
                requires w <= 65535, h <= 65535;
        }
        if img.len() != w * h {
            proof {
                assert(first_size_mismatch(m.textures@, imgs, (t + 1) as nat) == Some(t as nat));
                lemma_first_size_mismatch_stable(m.textures@, imgs, (t + 1) as nat, n as nat);
            }
            return Err(JamError::ImageSizeMismatch { texture: t, len: img.len(), width: w, height: h });
        }
        assert(first_size_mismatch(m.textures@, imgs, (t + 1) as nat) is None);
        assert(texels_within(m.textures@[t as int].tx, 256 * m.canvas_h));
        assert forall|k: int| 0 <= k < img@.len() implies img@[k] < mt.tx.quarter_palette_size by {
            assert(locals@[t as int]@[k] < m.textures@[t as int].tx.quarter_palette_size);
        }
        match paint_image(&mut canvas, &mt.tx, img, t) {
            Ok(()) => {},
            Err(e) => return Err(e),
        }
        t = t + 1;
    }
    Ok(canvas)
}

/// Writes the 32-byte record of `tx` at `th`; a record that overruns the buffer
/// fails at its first 16-bit field that does not fit.
#[verifier::rlimit(40)]
fn write_record(jam: &mut [u8], th: usize, tx: &JamTexture) -> (r: Result<(), JamError>)
    requires
        th + 2 <= old(jam)@.len(),
        old(jam)@.len() <= isize::MAX,
        th + 32 <= old(jam)@.len() || record_overrun_in_fields(th as int, old(jam)@.len() as int),
    ensures
        final(jam)@.len() == old(jam)@.len(),
        match r {
            Ok(()) => {
                &&& th + 32 <= old(jam)@.len()
                &&& forall|j: int| 0 <= j < 32 ==> #[trigger] final(jam)@[th + j] == record_byte(*tx, j)
                &&& forall|i: int| 0 <= i < old(jam)@.len() && !(th <= i < th + 32)
                    ==> #[trigger] final(jam)@[i] == old(jam)@[i]
            },
            Err(e) => th + 32 > old(jam)@.len() && e == (JamError::WriteOutOfRange {
                offset: record_overrun_offset(th as int, old(jam)@.len() as int) as usize,
            }),
        },
{
    jam[th] = tx.left;
    jam[th + 1] = tx.top;
    match write_le16(jam, th + 2, tx.unk02) {
        Ok(()) => {},
        Err(e) => return Err(e),
    }
    match write_le16(jam, th + 4, tx.width) {
        Ok(()) => {},
        Err(e) => return Err(e),
    }
    match write_le16(jam, th + 6, tx.height) {
        Ok(()) => {},
        Err(e) => return Err(e),
    }
    match write_le16(jam, th + 8, tx.unk08) {
        Ok(()) => {},
        Err(e) => return Err(e),
    }
    match write_le16(jam, th + 10, tx.unk0a) {
        Ok(()) => {},
        Err(e) => return Err(e),
    }
    match write_le16(jam, th + 12, tx.image_ptr) {
        Ok(()) => {},
        Err(e) => return Err(e),
    }
    match write_le16(jam, th + 14, tx.unk0e) {
        Ok(()) => {},
        Err(e) => return Err(e),
    }
    match write_le16(jam, th + 16, tx.quarter_palette_size) {
        Ok(()) => {},
        Err(e) => return Err(e),
    }
    match write_le16(jam, th + 18, tx.texture_id) {
        Ok(()) => {},
        Err(e) => return Err(e),
    }
    match write_le16(jam, th + 20, tx.transparent) {
        Ok(()) => {},
        Err(e) => return Err(e),
    }
    jam[th + 22] = tx.unk16;
    jam[th + 23] = tx.unk17;
    let mut j: usize = 0;
    while j < 8
        invariant
            th + 32 <= old(jam)@.len(),
            old(jam)@.len() <= isize::MAX,
            jam@.len() == old(jam)@.len(),
            j <= 8,
            forall|k: int| 0 <= k < 24 + j ==> #[trigger] jam@[th + k] == record_byte(*tx, k),
            forall|i: int| 0 <= i < old(jam)@.len() && !(th <= i < th + 32) ==> #[trigger] jam@[i]
                == old(jam)@[i],
        decreases 8 - j,
    {
        jam[th + 24 + j] = tx.unk18[j];
        j = j + 1;
    }
    Ok(())
}

/// Lays out the header and records of `m`, then `palette_data`, then `canvas`; the
/// palettes start after as many record slots as the header counts.
fn assemble_jam(m: &JamMeta, palette_data: &Vec<u8>, canvas: &Vec<u8>) -> (r: Result<Vec<u8>, JamError>)
    requires
        4 + 32 * m.num_textures + palette_data@.len() + canvas@.len() <= isize::MAX,
        ({
            let total = 4 + 32 * m.num_textures + palette_data@.len() + canvas@.len();
            records_fit(m.textures@.len(), total) || record_overrun_in_fields(unfit_record_offset(total), total)
        }),
    ensures
        ({
            let total = 4 + 32 * m.num_textures + palette_data@.len() + canvas@.len();
            match r {
                Ok(jam) => records_fit(m.textures@.len(), total) && jam@ == jam_bytes(*m, palette_data@, canvas@),
                Err(e) => !records_fit(m.textures@.len(), total) && e == (JamError::WriteOutOfRange {
                    offset: record_overrun_offset(unfit_record_offset(total), total) as usize,
                }),
            }
        }),
{
    let ghost layout = jam_bytes(*m, palette_data@, canvas@);
    let num = m.num_textures as usize;
    let n = m.textures.len();
    let pal_start = 4 + num * 32;
    let canvas_start = pal_start + palette_data.len();
    let total = canvas_start + canvas.len();
    let mut jam = zeroed(total);
    match write_le16(jam.as_mut_slice(), 0, m.num_textures) {
        Ok(()) => {},
        Err(e) => return Err(e),
    }
    match write_le16(jam.as_mut_slice(), 2, m.canvas_h) {
        Ok(()) => {},
        Err(e) => return Err(e),
    }
    assert(forall|i: int| 0 <= i < 4 ==> jam@[i] == layout[i]);
    assert(forall|i: int| 4 <= i < total ==> jam@[i] == 0);
    let mut t: usize = 0;
    while t < n
        invariant
            n == m.textures@.len(),
            num == m.num_textures,
            pal_start == 4 + 32 * num,
            layout == jam_bytes(*m, palette_data@, canvas@),
            jam@.len() == total,
            total == layout.len(),
            total <= isize::MAX,
            canvas_start == pal_start + palette_data@.len(),
            total == canvas_start + canvas@.len(),
            records_fit(n as nat, total as int) || record_overrun_in_fields(unfit_record_offset(total as int), total as int),
            t <= n,
            4 + 32 * t <= total,
            forall|i: int| 0 <= i < 4 ==> #[trigger] jam@[i] == layout[i],
            forall|i: int| 4 <= i < 4 + 32 * t && i < pal_start ==> #[trigger] jam@[i] == layout[i],
            forall|i: int| 4 + 32 * t <= i < total ==> #[trigger] jam@[i] == 0,
        decreases n - t,
    {
        let th = 4 + t * 32;
        proof {
            if th + 32 > total {
                assert(th == unfit_record_offset(total as int));
            }
        }
        match write_record(jam.as_mut_slice(), th, &m.textures[t].tx) {
            Ok(()) => {},
            Err(e) => {
                proof {
                    assert(th == unfit_record_offset(total as int));
                    assert(!records_fit(n as nat, total as int));
                }
                return Err(e);
            },
        }
        assert forall|i: int| 4 <= i < 4 + 32 * (t + 1) && i < pal_start implies #[trigger] jam@[i] == layout[i] by {
            if i >= th {
                lemma_row_col(i - 4, 32, t as int, i - th);
                assert(jam@[th + (i - th)] == record_byte(m.textures@[t as int].tx, i - th));
            }
        }
        t = t + 1;
    }
    assert forall|i: int| 0 <= i < pal_start implies #[trigger] jam@[i] == layout[i] by {
        if i >= 4 + 32 * n {
            assert(jam@[i] == 0);
        }
    }
    let mut k: usize = 0;
    while k < palette_data.len()
        invariant
            num == m.num_textures,
            pal_start == 4 + 32 * num,
            layout == jam_bytes(*m, palette_data@, canvas@),
            jam@.len() == total,
            total == layout.len(),
            canvas_start == pal_start + palette_data@.len(),
            total == canvas_start + canvas@.len(),
            k <= palette_data@.len(),
            forall|i: int| 0 <= i < pal_start + k ==> #[trigger] jam@[i] == layout[i],
        decreases palette_data@.len() - k,
    {
        jam.set(pal_start + k, palette_data[k]);
        k = k + 1;
    }
    let mut k: usize = 0;
    while k < canvas.len()
        invariant
            num == m.num_textures,
            pal_start == 4 + 32 * num,
            layout == jam_bytes(*m, palette_data@, canvas@),
            jam@.len() == total,
            total == layout.len(),
            canvas_start == pal_start + palette_data@.len(),
            total == canvas_start + canvas@.len(),
            k <= canvas@.len(),
            forall|i: int| 0 <= i < canvas_start + k ==> #[trigger] jam@[i] == layout[i],
        decreases canvas@.len() - k,
    {
        jam.set(canvas_start + k, canvas[k]);
        k = k + 1;
    }
    assert(jam@ =~= layout);
    Ok(jam)
}

proof fn lemma_first_size_mismatch_below(mts: Seq<MetaTexture>, imgs: Seq<Seq<u8>>, n: nat)
    ensures
        first_size_mismatch(mts, imgs, n) matches Some(t) ==> t < n,
    decreases n,
{
    if n > 0 {
        lemma_first_size_mismatch_below(mts, imgs, (n - 1) as nat);
    }
}

pub(crate) proof fn lemma_first_size_mismatch_same(
    mts1: Seq<MetaTexture>, imgs1: Seq<Seq<u8>>,
    mts2: Seq<MetaTexture>, imgs2: Seq<Seq<u8>>, n: nat,
)
    requires
        n <= mts1.len(),
        forall|j: int| 0 <= j < n ==> #[trigger] imgs1[j].len() == imgs2[j].len(),
        forall|j: int| 0 <= j < n ==> texel_count(#[trigger] mts1[j].tx) == texel_count(mts2[j].tx),
    ensures
        first_size_mismatch(mts1, imgs1, n) == first_size_mismatch(mts2, imgs2, n),
    decreases n,
{
    if n > 0 {
        lemma_first_size_mismatch_same(mts1, imgs1, mts2, imgs2, (n - 1) as nat);
        assert(imgs1[n - 1].len() == imgs2[n - 1].len());
        assert(texel_count(mts1[n - 1].tx) == texel_count(mts2[n - 1].tx));
    }
}

proof fn lemma_palette_block_len(meta: JamMeta, imgs: Seq<Seq<u8>>, m: JamMeta, n: nat)
    requires
        repalettized(meta, imgs, m),
        n <= meta.textures@.len(),
    ensures
        palette_block(m.textures@, n).len() == encoded_palette_bytes(meta_records(meta.textures@), imgs, n),
    decreases n,
{
    if n > 0 {
        lemma_palette_block_len(meta, imgs, m, (n - 1) as nat);
        let img = imgs[n - 1];
        let mt = meta.textures@[n - 1];
        let out = m.textures@[n - 1];
        assert(crate::palettize::repalettized_texture(mt, img, out));
        let q = repalettized_qps(mt.tx.quarter_palette_size, img);
        assert(out.palette@.len() == q);
        assert(meta_records(meta.textures@)[n - 1] == mt.tx);
    }
}

/// Encodes a JAM file from the provided metadata and **global GP2 indexed** texture images.
///
/// The texture images must contain GP2 global indices (0-255), not local palette indices.
/// The function repalettizes automatically: it builds local palettes from the unique
/// global indices used, remaps pixels to local indices, and encodes the result.
///
/// The resulting JAM is encrypted. Alongside it comes the metadata with the rebuilt palettes.
pub fn encode(meta: &JamMeta, textures: &[Vec<u8>]) -> (res: Result<(JamMeta, Vec<u8>), JamError>)
    requires
        encode_requirements(*meta, image_views(textures@)),
    ensures
        ({
            let imgs = image_views(textures@);
            match res {
                Ok((m, jam)) => {
                    &&& encode_error(*meta, imgs) is None
                    &&& repalettized(*meta, imgs, m)
                    &&& jam@ == jam_crypt(jam_layout(m, local_images(m, imgs)))
                },
                Err(e) => encode_error(*meta, imgs) == Some(e),
            }
        }),
{
    let ghost imgs = image_views(textures@);
    let (meta_out, local_imgs) = match repalettize_textures(meta, textures) {
        Ok(r) => r,
        Err(e) => return Err(e),
    };
    let ghost n = meta.textures@.len();
    let ghost mts = meta_out.textures@;
    proof {
        assert forall|t: int| 0 <= t < n implies {
            &&& #[trigger] mts[t].palette@.len() == mts[t].tx.quarter_palette_size
            &&& texel_count(mts[t].tx) == texel_count(meta.textures@[t].tx)
            &&& mts[t].tx.width == meta.textures@[t].tx.width
            &&& mts[t].tx.height == meta.textures@[t].tx.height
            &&& local_images(meta_out, imgs)[t] == image_views(local_imgs@)[t]
            &&& image_views(local_imgs@)[t].len() == imgs[t].len()
            &&& forall|k: int| 0 <= k < local_imgs@[t]@.len()
                ==> #[trigger] local_imgs@[t]@[k] < mts[t].tx.quarter_palette_size
        } by {
            let img = imgs[t];
            assert(crate::palettize::repalettized_texture(meta.textures@[t], img, mts[t]));
            lemma_distinct_colors_at_most_256(img);
            let q = repalettized_qps(meta.textures@[t].tx.quarter_palette_size, img);
            assert forall|k: int| 0 <= k < local_imgs@[t]@.len()
                implies #[trigger] local_imgs@[t]@[k] < mts[t].tx.quarter_palette_size by {
                lemma_local_pixel(img, q, k);
            }
        }
        assert(local_images(meta_out, imgs) =~= image_views(local_imgs@));
        lemma_first_size_mismatch_same(meta.textures@, imgs, mts, image_views(local_imgs@), n);
        assert forall|t: int| 0 <= t < n implies
            #[trigger] first_size_mismatch(mts, image_views(local_imgs@), (t + 1) as nat)
                == first_size_mismatch(meta.textures@, imgs, (t + 1) as nat) by {
            lemma_first_size_mismatch_same(meta.textures@, imgs, mts, image_views(local_imgs@), (t + 1) as nat);
        }
        lemma_palette_block_len(*meta, imgs, meta_out, n);
        lemma_first_size_mismatch_below(meta.textures@, imgs, n);
    }
    let palette_data = match build_palette_data(&meta_out.textures) {
        Ok(p) => p,
        Err(e) => return Err(e),
    };
    let canvas = match build_canvas(&meta_out, &local_imgs) {
        Ok(c) => c,
        Err(e) => return Err(e),
    };
    proof {
        assert(palette_data@.len() + canvas@.len() + 4 + 32 * meta_out.num_textures
            == encoded_size(*meta, imgs));
    }
    let mut jam = match assemble_jam(&meta_out, &palette_data, &canvas) {
        Ok(j) => j,
        Err(e) => return Err(e),
    };
    let ghost plain = jam@;
    decrypt_encrypt_jam(jam.as_mut_slice());
    assert(plain == jam_layout(meta_out, local_images(meta_out, imgs)));
    Ok((meta_out, jam))
}

pub(crate) proof fn lemma_encoded_palette_bytes_grows(txs: Seq<JamTexture>, imgs: Seq<Seq<u8>>, a: nat, b: nat)
    requires
        a <= b,
    ensures
        encoded_palette_bytes(txs, imgs, a) <= encoded_palette_bytes(txs, imgs, b),
    decreases b - a,
{
    if a < b {
        lemma_encoded_palette_bytes_grows(txs, imgs, a, (b - 1) as nat);
    }
}

/// The size of the archive encoded from the records `txs`, a header counting
/// `num_textures`, `canvas_h` rows and the images `imgs`, or `None` when it
/// exceeds `isize::MAX`.
pub(crate) fn checked_encoded_size(num_textures: u16, canvas_h: u16, txs: &[JamTexture], imgs: &[Vec<u8>])
    -> (r: Option<usize>)
    requires
        txs@.len() == imgs@.len(),
    ensures
        match r {
            Some(total) => total == encoded_size_of(num_textures, canvas_h, txs@, image_views(imgs@))
                && total <= isize::MAX,
            None => encoded_size_of(num_textures, canvas_h, txs@, image_views(imgs@)) > isize::MAX,
        },
{
    let ghost iv = image_views(imgs@);
    let n = txs.len();
    let limit: usize = isize::MAX as usize;
    let fixed: usize = 4 + 32 * (num_textures as usize) + CANVAS_W * (canvas_h as usize);
    let mut total: usize = fixed;
    let mut t: usize = 0;
    while t < n
        invariant
            iv == image_views(imgs@),
            n == txs@.len(),
            n == imgs@.len(),
            limit == isize::MAX,
            t <= n,
            fixed == 4 + 32 * num_textures + 256 * canvas_h,
            total == fixed + encoded_palette_bytes(txs@, iv, t as nat),
            total <= limit,
        decreases n - t,
    {
        let distinct = crate::palettize::collect_distinct_colors(&imgs[t]);
        let q = txs[t].quarter_palette_size as usize;
        let d = distinct.len();
        let size = if d > q { d } else { q };
        proof {
            assert(iv[t as int] == imgs@[t as int]@);
            lemma_distinct_colors_at_most_256(imgs@[t as int]@);
        }
        if size * 4 > limit - total {
            proof {
                lemma_encoded_palette_bytes_grows(txs@, iv, (t + 1) as nat, n as nat);
            }
            return None;
        }
        total = total + size * 4;
        t = t + 1;
    }
    Some(total)
}

/// Whether writing `n` records into an archive of `total` bytes either succeeds
/// or fails at a 16-bit field.
pub(crate) fn records_placeable(n: usize, total: usize) -> (b: bool)
    requires
        4 <= total,
    ensures
        b == (records_fit(n as nat, total as int)
            || record_overrun_in_fields(unfit_record_offset(total as int), total as int)),
{
    if n <= (total - 4) / 32 {
        return true;
    }
    let th: usize = if total < 36 { 4 } else { 4 + 32 * ((total - 36) / 32 + 1) };
    th + 2 <= total && total < th + 22
}

/// What `encode` requires of its arguments.
pub open spec fn encode_requirements(meta: JamMeta, imgs: Seq<Seq<u8>>) -> bool {
    &&& encode_in_bounds(meta, imgs)
    &&& meta.textures@.len() == imgs.len()
        && first_size_mismatch(meta.textures@, imgs, meta.textures@.len()) is None
        ==> encoded_size(meta, imgs) <= isize::MAX && records_written_or_refused(meta, imgs)
}

/// Whether `encode` can be called with `meta` and `textures`: every texture that
/// painting reaches lies within the canvas, the archive fits in memory, and
/// writing its records either succeeds or fails at a 16-bit field.
pub fn can_encode(meta: &JamMeta, textures: &[Vec<u8>]) -> (b: bool)
    ensures
        b == encode_requirements(*meta, image_views(textures@)),
{
    let ghost imgs = image_views(textures@);
    let ghost mts = meta.textures@;
    let n = meta.textures.len();
    if n != textures.len() {
        return true;
    }
    let canvas_rows = CANVAS_W * meta.canvas_h as usize;
    let mut t: usize = 0;
    while t < n
        invariant
            imgs == image_views(textures@),
            mts == meta.textures@,
            n == mts.len(),
            n == textures@.len(),
            canvas_rows == 256 * meta.canvas_h,
            t <= n,
            first_size_mismatch(mts, imgs, t as nat) is None,
            forall|k: int| 0 <= k < t ==> texels_within(#[trigger] mts[k].tx, canvas_rows as int),
        decreases n - t,
    {
        let tx = &meta.textures[t].tx;
        let w = tx.width as usize;
        let h = tx.height as usize;
        assert(imgs[t as int] == textures@[t as int]@);
        proof {
            assert(w * h <= 65535 * 65535) by (nonlinear_arith)
                requires w <= 65535, h <= 65535;
        }
        if textures[t].len() != w * h {
            proof {
                assert(first_size_mismatch(mts, imgs, (t + 1) as nat) == Some(t as nat));
                lemma_first_size_mismatch_stable(mts, imgs, (t + 1) as nat, n as nat);
                assert forall|k: int| 0 <= k < n && first_size_mismatch(mts, imgs, (k + 1) as nat) is None
                    implies texels_within(#[trigger] mts[k].tx, 256 * meta.canvas_h) by {
                    if k > t {
                        lemma_first_size_mismatch_stable(mts, imgs, (t + 1) as nat, (k + 1) as nat);
                    }
                }
            }
            return true;
        }
        if h > 0 && w > 0 {
            let last = (tx.top as usize + h - 1) * CANVAS_W + tx.left as usize + w;
            if last > canvas_rows {
                proof {
                    assert(first_size_mismatch(mts, imgs, (t + 1) as nat) is None);
                }
                return false;
            }
        }
        t = t + 1;
    }
    proof {
        assert(encode_in_bounds(*meta, imgs));
    }
    let mut txs: Vec<JamTexture> = Vec::with_capacity(n);
    let mut t: usize = 0;
    while t < n
        invariant
            mts == meta.textures@,
            n == mts.len(),
            t <= n,
            txs@ == meta_records(mts).take(t as int),
        decreases n - t,
    {
        txs.push(meta.textures[t].tx);
        t = t + 1;
        assert(txs@ =~= meta_records(mts).take(t as int));
    }
    assert(txs@ =~= meta_records(mts));
    match checked_encoded_size(meta.num_textures, meta.canvas_h, txs.as_slice(), textures) {
        Some(total) => records_placeable(n, total),
        None => false,
    }
}

} // verus!
