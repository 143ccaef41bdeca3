//! Saving an archive from the editor, where the canvas holds global indices.

use vstd::prelude::*;
use crate::canvas::{extract_texture_image, global_canvas, rows_within, texel_count, texels_within, texture_image};
use crate::crypt::jam_crypt;
use crate::encode::{
    checked_encoded_size, encode, encode_in_bounds, records_placeable, encoded_palette_bytes, encoded_size, encoded_size_of,
    first_size_mismatch, jam_layout, local_images, meta_records, record_overrun_in_fields,
    record_overrun_offset, records_fit, unfit_record_offset,
};
use crate::palettize::{image_views, repalettized, lemma_distinct_colors_at_most_256};
use crate::bytes::le16;
use crate::crypt::decrypt_encrypt_jam;
use crate::parse::{
    canvas_bytes, canvas_start, hdr_num_textures, jam_parse_error, jam_parsed_from, parse_jam_decrypted, record_offset,
    record_qps, texture_from_bytes,
};
use crate::canvas::{canvas_to_global_indices, palette_offset, parsed_consistent};
use crate::export::can_convert_to_global;
use crate::canvas::global_conversion_in_bounds;
use crate::roundtrip::{decodable_meta, lemma_encode_decode_roundtrip, rects_disjoint, within_row};
use crate::types::{JamError, JamMeta, JamParsed, JamTexture, MetaTexture, CANVAS_W};

verus! {

/// The images that the editor encodes: the region of each texture on the canvas.
pub open spec fn editor_images(p: JamParsed) -> Seq<Seq<u8>> {
    Seq::new(p.textures@.len(), |t: int| texture_image(p.canvas@, p.textures@[t]))
}

/// `meta` is the metadata that the editor encodes `p` from: its records, with
/// no stem, no image file names and empty palettes.
pub open spec fn editor_meta(meta: JamMeta, p: JamParsed) -> bool {
    &&& meta.stem@ == Seq::<char>::empty()
    &&& meta.num_textures == p.num_textures
    &&& meta.canvas_h == p.canvas_h
    &&& meta.textures@.len() == p.textures@.len()
    &&& forall|t: int| 0 <= t < p.textures@.len() ==> {
        &&& (#[trigger] meta.textures@[t]).tx == p.textures@[t]
        &&& meta.textures@[t].png_name@ == Seq::<char>::empty()
        &&& meta.textures@[t].palette@ == Seq::<u8>::empty()
    }
}

/// The size of the archive that the editor encodes from `p`.
pub open spec fn editor_encoded_size(p: JamParsed) -> int {
    encoded_size_of(p.num_textures, p.canvas_h, p.textures@, editor_images(p)) as int
}

/// The editor can encode `p`: every region lies within the canvas, the archive
/// fits in memory, and writing its records either succeeds or fails at a 16-bit field.
pub open spec fn editor_encodable(p: JamParsed) -> bool {
    let n = p.textures@.len();
    let total = editor_encoded_size(p);
    &&& forall|t: int| 0 <= t < n ==> rows_within(#[trigger] p.textures@[t], p.canvas@.len() as int)
        && texels_within(p.textures@[t], 256 * p.canvas_h)
    &&& total <= isize::MAX
    &&& records_fit(n, total) || record_overrun_in_fields(unfit_record_offset(total), total)
}

proof fn lemma_sizes_match(meta: JamMeta, imgs: Seq<Seq<u8>>, n: nat)
    requires
        n <= meta.textures@.len(),
        forall|t: int| 0 <= t < n ==> #[trigger] imgs[t].len() == texel_count(meta.textures@[t].tx),
    ensures
        first_size_mismatch(meta.textures@, imgs, n) is None,
    decreases n,
{
    if n > 0 {
        lemma_sizes_match(meta, imgs, (n - 1) as nat);
        assert(imgs[n - 1].len() == texel_count(meta.textures@[n - 1].tx));
    }
}

/// Encodes the archive that the editor holds, whose canvas holds global indices:
/// each texture's region is taken as its global-indexed image, and the archive is
/// encoded from the records alone, its palettes rebuilt from those images.
pub fn encode_parsed_global(parsed: &JamParsed) -> (r: Result<Vec<u8>, JamError>)
    requires
        editor_encodable(*parsed),
    ensures
        match r {
            Ok(jam) => records_fit(parsed.textures@.len(), editor_encoded_size(*parsed))
                && exists|meta: JamMeta, m: JamMeta|
                #![trigger editor_meta(meta, *parsed), repalettized(meta, editor_images(*parsed), m)]
            {
                &&& editor_meta(meta, *parsed)
                &&& repalettized(meta, editor_images(*parsed), m)
                &&& jam@ == jam_crypt(jam_layout(m, local_images(m, editor_images(*parsed))))
            },
            Err(e) => !records_fit(parsed.textures@.len(), editor_encoded_size(*parsed))
                && e == (JamError::WriteOutOfRange {
                    offset: record_overrun_offset(unfit_record_offset(editor_encoded_size(*parsed)),
                        editor_encoded_size(*parsed)) as usize,
                }),
        },
{
    let n = parsed.textures.len();
    let ghost imgs = editor_images(*parsed);
    let mut images: Vec<Vec<u8>> = Vec::with_capacity(n);
    let mut textures: Vec<MetaTexture> = Vec::with_capacity(n);
    let mut t: usize = 0;
    while t < n
        invariant
            editor_encodable(*parsed),
            imgs == editor_images(*parsed),
            n == parsed.textures@.len(),
            t <= n,
            images@.len() == t,
            textures@.len() == t,
            forall|k: int| 0 <= k < t ==> (#[trigger] images@[k])@ == imgs[k],
            forall|k: int| 0 <= k < t ==> {
                &&& (#[trigger] textures@[k]).tx == parsed.textures@[k]
                &&& textures@[k].png_name@ == Seq::<char>::empty()
                &&& textures@[k].palette@ == Seq::<u8>::empty()
            },
        decreases n - t,
    {
        assert(rows_within(parsed.textures@[t as int], parsed.canvas@.len() as int));
        images.push(extract_texture_image(parsed, t));
        textures.push(MetaTexture { tx: parsed.textures[t], png_name: String::new(), palette: Vec::new() });
        t = t + 1;
    }
    let meta = JamMeta {
        stem: String::new(),
        num_textures: parsed.num_textures,
        canvas_h: parsed.canvas_h,
        textures,
    };
    proof {
        assert(image_views(images@) =~= imgs);
        assert forall|t: int| 0 <= t < n implies #[trigger] imgs[t].len() == texel_count(meta.textures@[t].tx) by {
            assert(meta.textures@[t].tx == parsed.textures@[t]);
        }
        lemma_sizes_match(meta, imgs, n as nat);
        assert(meta_records(meta.textures@) =~= parsed.textures@);
        assert(encoded_size(meta, imgs) == editor_encoded_size(*parsed));
        assert forall|t: int| 0 <= t < meta.textures@.len()
            && first_size_mismatch(meta.textures@, imgs, (t + 1) as nat) is None
            implies texels_within(#[trigger] meta.textures@[t].tx, 256 * meta.canvas_h) by {
            assert(meta.textures@[t].tx == parsed.textures@[t]);
            assert(texels_within(parsed.textures@[t], 256 * parsed.canvas_h));
        }
        assert(encode_in_bounds(meta, imgs));
    }
    match encode(&meta, images.as_slice()) {
        Ok((m, encoded)) => {
            assert(editor_meta(meta, *parsed) && repalettized(meta, editor_images(*parsed), m));
            Ok(encoded)
        },
        Err(e) => Err(e),
    }
}

/// Whether the editor can encode `parsed`.
pub fn can_encode_parsed(parsed: &JamParsed) -> (b: bool)
    ensures
        b == editor_encodable(*parsed),
{
    let n = parsed.textures.len();
    let canvas_len = parsed.canvas.len();
    let canvas_rows = CANVAS_W * parsed.canvas_h as usize;
    let ghost txs = parsed.textures@;
    let ghost imgs = editor_images(*parsed);
    let mut t: usize = 0;
    while t < n
        invariant
            txs == parsed.textures@,
            n == txs.len(),
            canvas_len == parsed.canvas@.len(),
            canvas_rows == 256 * parsed.canvas_h,
            t <= n,
            forall|k: int| 0 <= k < t ==> rows_within(#[trigger] txs[k], canvas_len as int)
                && texels_within(txs[k], canvas_rows as int),
        decreases n - t,
    {
        let tx = &parsed.textures[t];
        if tx.height > 0 {
            let last = (tx.top as usize + tx.height as usize - 1) * CANVAS_W + tx.left as usize
                + tx.width as usize;
            if last > canvas_len || (tx.width > 0 && last > canvas_rows) {
                return false;
            }
        }
        t = t + 1;
    }
    let mut images: Vec<Vec<u8>> = Vec::with_capacity(n);
    let mut t: usize = 0;
    while t < n
        invariant
            txs == parsed.textures@,
            imgs == editor_images(*parsed),
            n == txs.len(),
            forall|k: int| 0 <= k < n ==> rows_within(#[trigger] txs[k], parsed.canvas@.len() as int),
            t <= n,
            images@.len() == t,
            forall|k: int| 0 <= k < t ==> (#[trigger] images@[k])@ == imgs[k],
        decreases n - t,
    {
        assert(rows_within(txs[t as int], parsed.canvas@.len() as int));
        images.push(extract_texture_image(parsed, t));
        t = t + 1;
    }
    assert(image_views(images@) =~= imgs);
    match checked_encoded_size(parsed.num_textures, parsed.canvas_h, parsed.textures.as_slice(), images.as_slice()) {
        Some(total) => records_placeable(n, total),
        None => false,
    }
}

/// The editor can save `p` so that loading gives its pixels back: the header counts
/// the records, the canvas has rows, every haze palette has at most 256 entries,
/// and the texture rectangles lie within the canvas without overlapping (an empty
/// rectangle overlaps nothing).
pub open spec fn editor_decodable(p: JamParsed) -> bool {
    let txs = p.textures@;
    &&& p.num_textures == txs.len()
    &&& p.canvas_h > 0
    &&& forall|t: int| 0 <= t < txs.len() ==> {
        &&& within_row(#[trigger] txs[t])
        &&& txs[t].top + txs[t].height <= p.canvas_h
        &&& txs[t].quarter_palette_size <= 256
    }
    &&& forall|a: int, b: int| 0 <= a < txs.len() && 0 <= b < txs.len() && a != b
        ==> rects_disjoint(#[trigger] txs[a], #[trigger] txs[b])
}

/// Saving from the editor and loading again gives back, for every texture, the
/// pixels of its region, as global indices.
pub proof fn lemma_editor_save_load(
    p: JamParsed,
    meta: JamMeta,
    m: JamMeta,
    jam: Seq<u8>,
    stem: Seq<char>,
    q: JamParsed,
)
    requires
        editor_decodable(p),
        editor_meta(meta, p),
        repalettized(meta, editor_images(p), m),
        jam == jam_crypt(jam_layout(m, local_images(m, editor_images(p)))),
        jam_parsed_from(q, stem, jam_crypt(jam)),
    ensures
        jam_parse_error(jam_crypt(jam)) is None,
        global_conversion_in_bounds(q),
        q.textures@.len() == p.textures@.len(),
        forall|t: int| 0 <= t < q.textures@.len() ==> texture_image(
            global_canvas(q.textures@, q.palette_data@, q.canvas@, q.textures@.len()),
            #[trigger] q.textures@[t],
        ) == texture_image(p.canvas@, p.textures@[t]),
{
    let n = p.textures@.len();
    let imgs = editor_images(p);
    let txs = meta_records(meta.textures@);
    assert forall|t: int| 0 <= t < n implies #[trigger] txs[t] == p.textures@[t] by {
        assert(meta.textures@[t].tx == p.textures@[t]);
    }
    assert(decodable_meta(meta));
    assert forall|t: int| 0 <= t < n implies #[trigger] imgs[t].len() == texel_count(meta.textures@[t].tx) by {
        assert(meta.textures@[t].tx == p.textures@[t]);
    }
    lemma_sizes_match(meta, imgs, n as nat);
    lemma_encode_decode_roundtrip(meta, imgs, m, jam, stem, q);
}

/// `q` is what parsing the decrypted archive `s` under the name `stem` gives, its
/// canvas converted to global indices.
pub open spec fn parsed_globally(q: JamParsed, stem: Seq<char>, s: Seq<u8>) -> bool {
    exists|raw: JamParsed| #[trigger] jam_parsed_from(raw, stem, s) && {
        &&& q.stem@ == raw.stem@
        &&& q.num_textures == raw.num_textures
        &&& q.canvas_h == raw.canvas_h
        &&& q.textures@ == raw.textures@
        &&& q.palette_data@ == raw.palette_data@
        &&& q.canvas@ == global_canvas(raw.textures@, raw.palette_data@, raw.canvas@, raw.textures@.len())
    }
}

/// Record `t` of the decrypted archive `s`, when it has a haze palette and a
/// non-empty region, has that region within the canvas.
pub open spec fn record_in_canvas(s: Seq<u8>, t: int) -> bool {
    let o = record_offset(t);
    let w = le16(s, o + 4) as int;
    let h = le16(s, o + 6) as int;
    record_qps(s, t) > 0 && h > 0 && w > 0 ==> (s[o + 1] + h - 1) * 256 + s[o] + w <= canvas_bytes(s)
}

/// Decoding the file bytes `data` for the editor converts only within the archive:
/// when the decrypted bytes parse, every record with a haze palette has its region
/// within the canvas.
pub open spec fn editor_bytes_ok(data: Seq<u8>) -> bool {
    let s = jam_crypt(data);
    jam_parse_error(s) is None ==> forall|t: int| 0 <= t < hdr_num_textures(s) ==> #[trigger] record_in_canvas(s, t)
}

proof fn lemma_editor_conversion(p: JamParsed, stem: Seq<char>, s: Seq<u8>)
    requires
        jam_parse_error(s) is None,
        jam_parsed_from(p, stem, s),
        parsed_consistent(p),
    ensures
        global_conversion_in_bounds(p) <==> forall|t: int| 0 <= t < hdr_num_textures(s) ==> #[trigger] record_in_canvas(s, t),
{
    let txs = p.textures@;
    let n = txs.len();
    assert(p.canvas@.len() == canvas_bytes(s));
    assert forall|t: int| 0 <= t < n implies palette_offset(txs, t as nat) + (#[trigger] txs[t]).quarter_palette_size
        <= p.palette_data@.len() && (texture_from_bytes(txs[t], s, record_offset(t))) by {
        crate::canvas::lemma_palette_offset_monotone(txs, (t + 1) as nat, n as nat);
    }
    if global_conversion_in_bounds(p) {
        assert forall|t: int| 0 <= t < hdr_num_textures(s) implies #[trigger] record_in_canvas(s, t) by {
            assert(texture_from_bytes(txs[t], s, record_offset(t)));
            if txs[t].quarter_palette_size > 0 {
                assert(global_conversion_in_bounds(p));
            }
        }
    }
    if forall|t: int| 0 <= t < hdr_num_textures(s) ==> #[trigger] record_in_canvas(s, t) {
        assert forall|t: int| 0 <= t < n && #[trigger] txs[t].quarter_palette_size > 0 implies {
            &&& palette_offset(txs, t as nat) + txs[t].quarter_palette_size <= p.palette_data@.len()
            &&& (txs[t].height > 0 ==> texels_within(txs[t], p.canvas@.len() as int))
        } by {
            assert(texture_from_bytes(txs[t], s, record_offset(t)));
            assert(record_in_canvas(s, t));
        }
    }
}

/// Whether the file bytes `data` can be decoded for the editor.
pub fn editor_bytes_fit(data: &[u8]) -> (b: bool)
    ensures
        b == editor_bytes_ok(data@),
{
    let mut d = vstd::slice::slice_to_vec(data);
    decrypt_encrypt_jam(d.as_mut_slice());
    match parse_jam_decrypted(String::new(), d.as_slice()) {
        Ok(p) => {
            proof {
                lemma_editor_conversion(p, p.stem@, d@);
            }
            can_convert_to_global(&p)
        },
        Err(_) => true,
    }
}

/// Decodes the file bytes `data` of an archive for the editor: decrypts them,
/// parses them under the name `stem`, and converts the canvas to global indices.
pub fn decode_for_editor(stem: String, data: Vec<u8>) -> (r: Result<JamParsed, JamError>)
    requires
        editor_bytes_ok(data@),
    ensures
        match r {
            Ok(q) => jam_parse_error(jam_crypt(data@)) is None && parsed_globally(q, stem@, jam_crypt(data@)),
            Err(e) => jam_parse_error(jam_crypt(data@)) == Some(e),
        },
{
    let ghost st = stem@;
    let mut d = data;
    decrypt_encrypt_jam(d.as_mut_slice());
    let mut p = match parse_jam_decrypted(stem, d.as_slice()) {
        Ok(p) => p,
        Err(e) => return Err(e),
    };
    let ghost raw = p;
    proof {
        lemma_editor_conversion(raw, st, d@);
    }
    let global = canvas_to_global_indices(&p);
    p.canvas = global;
    assert(jam_parsed_from(raw, st, d@));
    Ok(p)
}

} // verus!
