//! The metadata that goes with exported images: building it from a parsed
//! archive, and checking it before an archive is encoded from it.

use vstd::prelude::*;
use crate::canvas::{palette_offset, texels_within};
use crate::encode::{encoded_palette_bytes, meta_records};
use crate::palettize::lemma_distinct_colors_at_most_256;
use crate::names::{png_file_name, png_file_name_spec};
use crate::types::{JamError, JamMeta, JamParsed, JamTexture, MetaTexture, CANVAS_W};

verus! {

/// The lowest canvas row below the first `n` textures: the largest `top + height`, or 0.
pub open spec fn max_bottom(txs: Seq<JamTexture>, n: nat) -> int
    decreases n,
{
    if n == 0 {
        0
    } else {
        let b = txs[n - 1].top + txs[n - 1].height;
        let r = max_bottom(txs, (n - 1) as nat);
        if b > r {
            b
        } else {
            r
        }
    }
}

/// What building the metadata of `p` reads lies within `p` and its sums fit.
pub open spec fn meta_in_bounds(p: JamParsed) -> bool {
    let txs = p.textures@;
    &&& palette_offset(txs, txs.len()) <= usize::MAX
    &&& forall|t: int| 0 <= t < txs.len() ==> palette_offset(txs, t as nat)
        + (#[trigger] txs[t]).quarter_palette_size <= p.palette_data@.len()
    &&& forall|t: int| 0 <= t < txs.len() ==> (#[trigger] txs[t]).top + txs[t].height <= u16::MAX
}

/// `meta` is the metadata of `p` exported under `stem`: every record with its image
/// file name and its haze-0 palette, the texture count and the lowest row used.
pub open spec fn meta_of_parsed(meta: JamMeta, stem: Seq<char>, p: JamParsed) -> bool {
    let txs = p.textures@;
    &&& meta.stem@ == stem
    &&& meta.num_textures == txs.len() as u16
    &&& meta.canvas_h == max_bottom(txs, txs.len())
    &&& meta.textures@.len() == txs.len()
    &&& forall|t: int| 0 <= t < txs.len() ==> {
        let mt = #[trigger] meta.textures@[t];
        let off = palette_offset(txs, t as nat) as int;
        &&& mt.tx == txs[t]
        &&& mt.png_name@ == png_file_name_spec(stem, t as nat)
        &&& mt.palette@ == p.palette_data@.subrange(off, off + txs[t].quarter_palette_size)
    }
}

/// The metadata of `p` exported under `stem`: every record with its image file
/// name and its haze-0 palette, the texture count and the lowest row used.
pub fn meta_from_parsed(stem: &str, parsed: &JamParsed) -> (meta: JamMeta)
    requires
        meta_in_bounds(*parsed),
    ensures
        meta_of_parsed(meta, stem@, *parsed),
{
    let ghost txs = parsed.textures@;
    let n = parsed.textures.len();
    let pal_len = parsed.palette_data.len();
    let mut pal_off: usize = 0;
    let mut canvas_h: u16 = 0;
    let mut meta_textures: Vec<MetaTexture> = Vec::with_capacity(n);
    let mut t: usize = 0;
    while t < n
        invariant
            meta_in_bounds(*parsed),
            txs == parsed.textures@,
            n == txs.len(),
            pal_len == parsed.palette_data@.len(),
            t <= n,
            pal_off == palette_offset(txs, t as nat),
            canvas_h == max_bottom(txs, t as nat),
            meta_textures@.len() == t,
            forall|k: int| 0 <= k < t ==> {
                let mt = #[trigger] meta_textures@[k];
                let off = palette_offset(txs, k as nat) as int;
                &&& mt.tx == txs[k]
                &&& mt.png_name@ == png_file_name_spec(stem@, k as nat)
                &&& mt.palette@ == parsed.palette_data@.subrange(off, off + txs[k].quarter_palette_size)
            },
        decreases n - t,
    {
        let tx = parsed.textures[t];
        let qps = tx.quarter_palette_size as usize;
        assert(palette_offset(txs, t as nat) + txs[t as int].quarter_palette_size <= pal_len);
        let palette = vstd::slice::slice_to_vec(
            vstd::slice::slice_subrange(parsed.palette_data.as_slice(), pal_off, pal_off + qps),
        );
        proof {
            crate::canvas::lemma_palette_offset_monotone(txs, (t + 1) as nat, n as nat);
        }
        pal_off = pal_off + qps * 4;
        let png_name = png_file_name(stem, t);
        assert(txs[t as int].top + txs[t as int].height <= u16::MAX);
        let bottom: u16 = tx.top as u16 + tx.height;
        if bottom > canvas_h {
            canvas_h = bottom;
        }
        meta_textures.push(MetaTexture { tx, png_name, palette });
        t = t + 1;
    }
    JamMeta { stem: stem.to_owned(), num_textures: #[verifier::truncate] (n as u16), canvas_h, textures: meta_textures }
}

/// The error that checking metadata texture `mt`, number `t`, reports, if any:
/// an empty region, a region past the right edge of the canvas, or a haze palette
/// of more than 256 entries; then a palette whose length is not the haze palette size.
pub open spec fn meta_texture_error(mt: MetaTexture, t: int) -> Option<JamError> {
    let tx = mt.tx;
    let qps = tx.quarter_palette_size as int;
    if qps > 256 || tx.width == 0 || tx.height == 0 || tx.left + tx.width > CANVAS_W {
        Some(JamError::InvalidTexture { texture: t as usize })
    } else if mt.palette@.len() != qps {
        Some(JamError::PaletteSizeMismatch {
            texture: t as usize,
            got: mt.palette@.len() as usize,
            expected: qps as usize,
        })
    } else {
        None
    }
}

/// The error of the first of the first `n` textures that has one.
pub open spec fn first_meta_error(mts: Seq<MetaTexture>, n: nat) -> Option<JamError>
    decreases n,
{
    if n == 0 {
        None
    } else {
        match first_meta_error(mts, (n - 1) as nat) {
            Some(e) => Some(e),
            None => meta_texture_error(mts[n - 1], n - 1),
        }
    }
}

/// The error that checking metadata with these textures reports, if any.
pub open spec fn meta_error(mts: Seq<MetaTexture>) -> Option<JamError> {
    if mts.len() as u16 == 0 {
        Some(JamError::NoTextures)
    } else {
        first_meta_error(mts, mts.len())
    }
}

proof fn lemma_first_meta_error_stable(mts: Seq<MetaTexture>, a: nat, b: nat)
    requires
        a <= b,
        first_meta_error(mts, a) is Some,
    ensures
        first_meta_error(mts, b) == first_meta_error(mts, a),
    decreases b - a,
{
    if a < b {
        lemma_first_meta_error_stable(mts, a, (b - 1) as nat);
    }
}

/// `meta` is the checked metadata named `stem` with the textures `mts`: they are
/// counted, and the canvas reaches down to the lowest row they use.
pub open spec fn validated_meta(meta: JamMeta, stem: Seq<char>, mts: Seq<MetaTexture>) -> bool {
    &&& meta.stem@ == stem
    &&& meta.num_textures == mts.len() as u16
    &&& meta.canvas_h == max_bottom(meta_records(mts), mts.len())
    &&& meta.textures@ == mts
}

/// Checks the textures read from a metadata file, in order: each must have a
/// non-empty region that stays left of the canvas's right edge and a haze palette
/// of at most 256 entries whose length its palette has; the list must not be empty.
pub fn check_meta_textures(textures: &Vec<MetaTexture>) -> (r: Result<(), JamError>)
    ensures
        match r {
            Ok(()) => meta_error(textures@) is None,
            Err(e) => meta_error(textures@) == Some(e),
        },
{
    let ghost mts = textures@;
    let n = textures.len();
    let num_textures: u16 = #[verifier::truncate] (n as u16);
    if num_textures == 0 {
        return Err(JamError::NoTextures);
    }
    let mut t: usize = 0;
    while t < n
        invariant
            mts == textures@,
            n == mts.len(),
            num_textures == n as u16,
            num_textures != 0,
            t <= n,
            first_meta_error(mts, t as nat) is None,
        decreases n - t,
    {
        let mt = &textures[t];
        let qps = mt.tx.quarter_palette_size as usize;
        if qps > 256 || mt.tx.width == 0 || mt.tx.height == 0
            || mt.tx.left as usize + mt.tx.width as usize > CANVAS_W {
            proof {
                lemma_first_meta_error_stable(mts, (t + 1) as nat, n as nat);
            }
            return Err(JamError::InvalidTexture { texture: t });
        }
        if mt.palette.len() != qps {
            proof {
                lemma_first_meta_error_stable(mts, (t + 1) as nat, n as nat);
            }
            return Err(JamError::PaletteSizeMismatch { texture: t, got: mt.palette.len(), expected: qps });
        }
        t = t + 1;
    }
    Ok(())
}

/// The bottom row `top + height` of every texture fits in 16 bits.
pub open spec fn bottoms_fit(mts: Seq<MetaTexture>) -> bool {
    forall|t: int| 0 <= t < mts.len() ==> (#[trigger] mts[t]).tx.top + mts[t].tx.height <= u16::MAX
}

/// Whether the bottom row of every texture fits in 16 bits.
pub fn meta_bottoms_fit(textures: &Vec<MetaTexture>) -> (b: bool)
    ensures
        b == bottoms_fit(textures@),
{
    let mut t: usize = 0;
    while t < textures.len()
        invariant
            t <= textures@.len(),
            forall|k: int| 0 <= k < t ==> (#[trigger] textures@[k]).tx.top + textures@[k].tx.height <= u16::MAX,
        decreases textures@.len() - t,
    {
        let tx = &textures[t].tx;
        if tx.top as u32 + tx.height as u32 > 0xffff {
            return false;
        }
        t = t + 1;
    }
    true
}

/// Whether the metadata of `parsed` can be built: every haze-0 palette lies in the
/// palette block, the palette offsets fit in memory and every bottom row fits in 16 bits.
pub fn meta_fits(parsed: &JamParsed) -> (b: bool)
    ensures
        b == meta_in_bounds(*parsed),
{
    let n = parsed.textures.len();
    let pal_len = parsed.palette_data.len();
    let ghost txs = parsed.textures@;
    let mut off: usize = 0;
    let mut t: usize = 0;
    while t < n
        invariant
            txs == parsed.textures@,
            n == txs.len(),
            pal_len == parsed.palette_data@.len(),
            t <= n,
            off == palette_offset(txs, t as nat),
            forall|k: int| 0 <= k < t ==> palette_offset(txs, k as nat) + (#[trigger] txs[k]).quarter_palette_size
                <= pal_len,
            forall|k: int| 0 <= k < t ==> (#[trigger] txs[k]).top + txs[k].height <= u16::MAX,
        decreases n - t,
    {
        let tx = &parsed.textures[t];
        let qps = tx.quarter_palette_size as usize;
        if off > pal_len || qps > pal_len - off {
            return false;
        }
        if tx.top as u32 + tx.height as u32 > 0xffff {
            return false;
        }
        if qps * 4 > usize::MAX - off {
            proof {
                crate::canvas::lemma_palette_offset_monotone(txs, (t + 1) as nat, n as nat);
            }
            return false;
        }
        off = off + qps * 4;
        t = t + 1;
    }
    true
}

/// Checks the textures read from a metadata file and completes the metadata: the
/// texture count, the stem, and the canvas height, which is the lowest row that a
/// texture uses.
pub fn validate_meta(stem: &str, textures: Vec<MetaTexture>) -> (r: Result<JamMeta, JamError>)
    requires
        meta_error(textures@) is None ==> bottoms_fit(textures@),
    ensures
        match r {
            Ok(meta) => meta_error(textures@) is None && validated_meta(meta, stem@, textures@),
            Err(e) => meta_error(textures@) == Some(e),
        },
{
    match check_meta_textures(&textures) {
        Ok(()) => {},
        Err(e) => return Err(e),
    }
    let ghost mts = textures@;
    let ghost txs = meta_records(mts);
    let n = textures.len();
    let mut canvas_h: u16 = 0;
    let mut t: usize = 0;
    while t < n
        invariant
            mts == textures@,
            txs == meta_records(mts),
            n == mts.len(),
            t <= n,
            bottoms_fit(mts),
            canvas_h == max_bottom(txs, t as nat),
        decreases n - t,
    {
        let tx = textures[t].tx;
        assert(txs[t as int] == tx);
        assert(mts[t as int].tx.top + mts[t as int].tx.height <= u16::MAX);
        let bottom: u16 = tx.top as u16 + tx.height;
        if bottom > canvas_h {
            canvas_h = bottom;
        }
        t = t + 1;
    }
    let num_textures: u16 = #[verifier::truncate] (n as u16);
    Ok(JamMeta { stem: stem.to_owned(), num_textures, canvas_h, textures })
}

proof fn lemma_max_bottom(txs: Seq<JamTexture>, n: nat, t: int)
    requires
        0 <= t < n <= txs.len(),
    ensures
        txs[t].top + txs[t].height <= max_bottom(txs, n),
    decreases n,
{
    if t < n - 1 {
        lemma_max_bottom(txs, (n - 1) as nat, t);
    }
}

proof fn lemma_checked_palette_bytes(mts: Seq<MetaTexture>, imgs: Seq<Seq<u8>>, k: nat)
    requires
        k <= mts.len(),
        first_meta_error(mts, k) is None,
    ensures
        encoded_palette_bytes(meta_records(mts), imgs, k) <= 1024 * k,
    decreases k,
{
    if k > 0 {
        lemma_checked_palette_bytes(mts, imgs, (k - 1) as nat);
        lemma_distinct_colors_at_most_256(imgs[k - 1]);
        assert(meta_records(mts)[k - 1] == mts[k - 1].tx);
    }
}

/// Metadata as checking leaves it: its textures passed the checks, the header
/// counts them, and the canvas height is the lowest row they reach.
pub open spec fn checked_meta(meta: JamMeta) -> bool {
    &&& meta_error(meta.textures@) is None
    &&& meta.num_textures == meta.textures@.len()
    &&& meta.canvas_h == max_bottom(meta_records(meta.textures@), meta.textures@.len())
}

/// In checked metadata the canvas has rows, and every texture has a non-empty
/// region within the canvas and a haze palette of at most 256 entries, which its
/// palette holds exactly.
pub proof fn lemma_checked_meta_facts(meta: JamMeta)
    requires
        checked_meta(meta),
    ensures
        meta.canvas_h > 0,
        forall|t: int| 0 <= t < meta.textures@.len() ==> {
            let tx = (#[trigger] meta.textures@[t]).tx;
            &&& tx.quarter_palette_size <= 256
            &&& meta.textures@[t].palette@.len() == tx.quarter_palette_size
            &&& tx.width > 0 && tx.height > 0
            &&& tx.left + tx.width <= 256
            &&& tx.top + tx.height <= meta.canvas_h
        },
{
    let mts = meta.textures@;
    let n = mts.len();
    let txs = meta_records(mts);
    assert forall|t: int| 0 <= t < n implies {
        let tx = (#[trigger] meta.textures@[t]).tx;
        &&& tx.quarter_palette_size <= 256
        &&& meta.textures@[t].palette@.len() == tx.quarter_palette_size
        &&& tx.width > 0 && tx.height > 0
        &&& tx.left + tx.width <= 256
        &&& tx.top + tx.height <= meta.canvas_h
    } by {
        lemma_no_meta_error(mts, n, t);
        lemma_max_bottom(txs, n, t);
        assert(txs[t] == mts[t].tx);
    }
    assert(n > 0);
    assert(meta_texture_error(mts[0], 0) is None) by {
        lemma_no_meta_error(mts, n, 0);
    }
    lemma_max_bottom(txs, n, 0);
    assert(txs[0] == mts[0].tx);
}

/// Metadata that checking accepted, and whose header counts its textures, meets
/// what `encode` requires of it, for any list of as many images as it has textures.
pub proof fn lemma_checked_meta_encodes(meta: JamMeta, imgs: Seq<Seq<u8>>)
    requires
        meta_error(meta.textures@) is None,
        meta.num_textures == meta.textures@.len(),
        meta.canvas_h == max_bottom(meta_records(meta.textures@), meta.textures@.len()),
    ensures
        crate::encode::encode_requirements(meta, imgs),
{
    let mts = meta.textures@;
    let n = mts.len();
    let txs = meta_records(mts);
    assert forall|t: int| 0 <= t < n implies texels_within(#[trigger] mts[t].tx, 256 * meta.canvas_h) by {
        lemma_max_bottom(txs, n, t);
        lemma_no_meta_error(mts, n, t);
        assert(txs[t] == mts[t].tx);
        let tx = mts[t].tx;
        assert((tx.top + tx.height - 1) * 256 + tx.left + tx.width <= 256 * meta.canvas_h);
    }
    lemma_checked_palette_bytes(mts, imgs, n);
}

proof fn lemma_no_meta_error(mts: Seq<MetaTexture>, n: nat, t: int)
    requires
        first_meta_error(mts, n) is None,
        0 <= t < n,
    ensures
        meta_texture_error(mts[t], t) is None,
    decreases n,
{
    if t < n - 1 {
        lemma_no_meta_error(mts, (n - 1) as nat, t);
    }
}

proof fn lemma_max_bottom_records(p: JamParsed, m: JamMeta, k: nat)
    requires
        k <= p.textures@.len(),
        m.textures@.len() == p.textures@.len(),
        forall|t: int| 0 <= t < p.textures@.len() ==> (#[trigger] m.textures@[t]).tx == p.textures@[t],
    ensures
        max_bottom(meta_records(m.textures@), k) == max_bottom(p.textures@, k),
    decreases k,
{
    if k > 0 {
        lemma_max_bottom_records(p, m, (k - 1) as nat);
        assert(meta_records(m.textures@)[k - 1] == p.textures@[k - 1]);
    }
}

/// Checking the metadata built from an archive gives it back: when the archive
/// has at least one texture and every texture has a non-empty region that stays
/// left of the canvas's right edge and a haze palette of at most 256 entries, the
/// checks pass, and the checked metadata is the built one, field by field.
pub proof fn lemma_meta_roundtrip(p: JamParsed, stem: Seq<char>, m: JamMeta, v: JamMeta)
    requires
        meta_in_bounds(p),
        1 <= p.textures@.len() <= 65535,
        forall|t: int| 0 <= t < p.textures@.len() ==> {
            let tx = #[trigger] p.textures@[t];
            &&& tx.quarter_palette_size <= 256
            &&& tx.width > 0 && tx.height > 0
            &&& tx.left + tx.width <= 256
        },
        meta_of_parsed(m, stem, p),
        validated_meta(v, stem, m.textures@),
    ensures
        meta_error(m.textures@) is None,
        bottoms_fit(m.textures@),
        v.stem@ == m.stem@,
        v.num_textures == m.num_textures,
        v.canvas_h == m.canvas_h,
        v.textures@ == m.textures@,
{
    let mts = m.textures@;
    let n = mts.len();
    assert forall|t: int| 0 <= t < n implies #[trigger] meta_texture_error(mts[t], t) is None by {
        let off = palette_offset(p.textures@, t as nat) as int;
        assert(mts[t].tx == p.textures@[t]);
        assert(off + p.textures@[t].quarter_palette_size <= p.palette_data@.len());
    }
    lemma_no_first_meta_error(mts, n);
    assert forall|t: int| 0 <= t < n implies (#[trigger] mts[t]).tx.top + mts[t].tx.height <= u16::MAX by {
        assert(mts[t].tx == p.textures@[t]);
    }
    lemma_max_bottom_records(p, m, n);
}

proof fn lemma_no_first_meta_error(mts: Seq<MetaTexture>, n: nat)
    requires
        n <= mts.len(),
        forall|t: int| 0 <= t < n ==> #[trigger] meta_texture_error(mts[t], t) is None,
    ensures
        first_meta_error(mts, n) is None,
    decreases n,
{
    if n > 0 {
        lemma_no_first_meta_error(mts, (n - 1) as nat);
        assert(meta_texture_error(mts[n - 1], n - 1) is None);
    }
}

} // verus!
