//! Splitting a decrypted JAM buffer into header, records, palettes and canvas.

use vstd::prelude::*;
use crate::bytes::{le16, read_le16};
use crate::crypt::{decrypt_encrypt_jam, jam_crypt};
use crate::canvas::{palette_offset, parsed_consistent};
use crate::types::{JamError, JamParsed, JamTexture, CANVAS_W};

verus! {

/// Number of texture records announced by the header.
pub open spec fn hdr_num_textures(s: Seq<u8>) -> u16 {
    le16(s, 0)
}

/// Canvas height announced by the header.
pub open spec fn hdr_canvas_h(s: Seq<u8>) -> u16 {
    le16(s, 2)
}

/// Offset of the record of texture `t`.
pub open spec fn record_offset(t: int) -> int {
    4 + 32 * t
}

/// Haze palette size stored in the record of texture `t`.
pub open spec fn record_qps(s: Seq<u8>, t: int) -> u16 {
    le16(s, record_offset(t) + 16)
}

/// Total size of the palettes of the first `n` textures: four haze palettes each.
pub open spec fn palette_bytes(s: Seq<u8>, n: nat) -> nat
    decreases n,
{
    if n == 0 {
        0
    } else {
        palette_bytes(s, (n - 1) as nat) + 4 * (record_qps(s, n - 1) as nat)
    }
}

/// The first of the first `n` records whose haze palette size exceeds 256.
pub open spec fn first_oversized(s: Seq<u8>, n: nat) -> Option<nat>
    decreases n,
{
    if n == 0 {
        None
    } else {
        match first_oversized(s, (n - 1) as nat) {
            Some(t) => Some(t),
            None => if record_qps(s, n - 1) > 256 {
                Some((n - 1) as nat)
            } else {
                None
            },
        }
    }
}

/// Where the palettes start.
pub open spec fn palettes_start(s: Seq<u8>) -> int {
    4 + 32 * hdr_num_textures(s)
}

/// Where the canvas starts.
pub open spec fn canvas_start(s: Seq<u8>) -> int {
    palettes_start(s) + palette_bytes(s, hdr_num_textures(s) as nat)
}

/// Size of the canvas.
pub open spec fn canvas_bytes(s: Seq<u8>) -> int {
    256 * hdr_canvas_h(s)
}

/// The error that parsing reports for `s`, checked in this order; `None` when `s` parses.
pub open spec fn jam_parse_error(s: Seq<u8>) -> Option<JamError> {
    if s.len() < 4 {
        Some(JamError::HeaderTooSmall)
    } else if hdr_canvas_h(s) == 0 {
        Some(JamError::ZeroCanvasHeight)
    } else if palettes_start(s) > s.len() {
        Some(JamError::HeadersTruncated)
    } else if first_oversized(s, hdr_num_textures(s) as nat) is Some {
        let t = first_oversized(s, hdr_num_textures(s) as nat)->0;
        Some(JamError::PaletteQuarterTooLarge { texture: t as usize, qps: record_qps(s, t as int) as usize })
    } else if canvas_start(s) + canvas_bytes(s) > s.len() {
        Some(JamError::StreamTruncated {
            num_textures: hdr_num_textures(s),
            canvas_h: hdr_canvas_h(s),
            len: s.len() as usize,
        })
    } else {
        None
    }
}

/// `tx` holds the fields of the 32-byte record at `off`.
pub open spec fn texture_from_bytes(tx: JamTexture, s: Seq<u8>, off: int) -> bool {
    &&& tx.left == s[off]
    &&& tx.top == s[off + 1]
    &&& tx.unk02 == le16(s, off + 2)
    &&& tx.width == le16(s, off + 4)
    &&& tx.height == le16(s, off + 6)
    &&& tx.unk08 == le16(s, off + 8)
    &&& tx.unk0a == le16(s, off + 10)
    &&& tx.image_ptr == le16(s, off + 12)
    &&& tx.unk0e == le16(s, off + 14)
    &&& tx.quarter_palette_size == le16(s, off + 16)
    &&& tx.texture_id == le16(s, off + 18)
    &&& tx.transparent == le16(s, off + 20)
    &&& tx.unk16 == s[off + 22]
    &&& tx.unk17 == s[off + 23]
    &&& tx.unk18@ == s.subrange(off + 24, off + 32)
}

/// `p` is what parsing the decrypted buffer `s` under the name `stem` gives.
pub open spec fn jam_parsed_from(p: JamParsed, stem: Seq<char>, s: Seq<u8>) -> bool {
    let n = hdr_num_textures(s);
    &&& p.stem@ == stem
    &&& p.num_textures == n
    &&& p.canvas_h == hdr_canvas_h(s)
    &&& p.textures@.len() == n
    &&& forall|t: int| 0 <= t < n ==> texture_from_bytes(#[trigger] p.textures@[t], s, record_offset(t))
    &&& p.palette_data@ == s.subrange(palettes_start(s), canvas_start(s))
    &&& p.canvas@ == s.subrange(canvas_start(s), canvas_start(s) + canvas_bytes(s))
}

proof fn lemma_palette_bytes_bound(s: Seq<u8>, n: nat)
    requires
        first_oversized(s, n) is None,
    ensures
        palette_bytes(s, n) <= 1024 * n,
    decreases n,
{
    if n > 0 {
        lemma_palette_bytes_bound(s, (n - 1) as nat);
    }
}

/// Parses a decrypted JAM buffer.
///
/// Layout of a JAM file:
/// 1. Header (4 bytes): `num_textures` (u16), `canvas_h` (u16).
/// 2. Texture Records (32 bytes each): metadata for each texture.
/// 3. Palette Data: all local palettes for all textures, concatenated.
///    Each texture has 4 local palettes, each of `quarter_palette_size` bytes.
/// 4. Canvas Data: a 256-wide by `canvas_h` tall grid of pixel indices.
pub fn parse_jam_decrypted(stem: String, jam: &[u8]) -> (res: Result<JamParsed, JamError>)
    ensures
        match res {
            Ok(p) => jam_parse_error(jam@) is None && jam_parsed_from(p, stem@, jam@) && parsed_consistent(p),
            Err(e) => jam_parse_error(jam@) == Some(e),
        },
{
    let ghost s = jam@;
    if jam.len() < 4 {
        return Err(JamError::HeaderTooSmall);
    }
    let num_textures = match read_le16(jam, 0) { Ok(v) => v, Err(e) => return Err(e) };
    let canvas_h = match read_le16(jam, 2) { Ok(v) => v, Err(e) => return Err(e) };
    if canvas_h == 0 {
        return Err(JamError::ZeroCanvasHeight);
    }
    let headers_off: usize = 4;
    let n: usize = num_textures as usize;
    let headers_size: usize = n * 32;
    if headers_off + headers_size > jam.len() {
        return Err(JamError::HeadersTruncated);
    }

    let mut palette_size: usize = 0;
    let mut t: usize = 0;
    while t < n
        invariant
            s == jam@,
            headers_off == 4,
            n == hdr_num_textures(s),
            hdr_canvas_h(s) != 0,
            4 + 32 * n <= s.len(),
            t <= n,
            palette_size == palette_bytes(s, t as nat),
            palette_size <= 1024 * t,
            first_oversized(s, t as nat) is None,
        decreases n - t,
    {
        let th = headers_off + t * 32;
        let qps = match read_le16(jam, th + 16) { Ok(v) => v, Err(e) => return Err(e) };
        if qps > 256 {
            proof {
                assert(first_oversized(s, (t + 1) as nat) == Some(t as nat));
                lemma_first_oversized_stable(s, (t + 1) as nat, n as nat);
            }
            return Err(JamError::PaletteQuarterTooLarge { texture: t, qps: qps as usize });
        }
        palette_size = palette_size + (qps as usize) * 4;
        t = t + 1;
    }

    let canvas_size: usize = CANVAS_W * (canvas_h as usize);
    if headers_off + headers_size + palette_size + canvas_size > jam.len() {
        return Err(JamError::StreamTruncated { num_textures, canvas_h, len: jam.len() });
    }

    let mut textures: Vec<JamTexture> = Vec::with_capacity(n);
    let mut t: usize = 0;
    while t < n
        invariant
            s == jam@,
            headers_off == 4,
            n == hdr_num_textures(s),
            4 + 32 * n <= s.len(),
            t <= n,
            textures@.len() == t,
            forall|k: int| 0 <= k < t ==> texture_from_bytes(#[trigger] textures@[k], s, record_offset(k)),
        decreases n - t,
    {
        let th = headers_off + t * 32;
        let tx = read_record(jam, th);
        textures.push(tx);
        t = t + 1;
    }

    let palette_start = headers_off + headers_size;
    let canvas_start = palette_start + palette_size;
    let palette_data = vstd::slice::slice_to_vec(vstd::slice::slice_subrange(jam, palette_start, canvas_start));
    let canvas = vstd::slice::slice_to_vec(
        vstd::slice::slice_subrange(jam, canvas_start, canvas_start + canvas_size),
    );
    let parsed = JamParsed { stem, num_textures, canvas_h, textures, palette_data, canvas };
    proof {
        lemma_parsed_consistent(parsed, stem@, s);
    }
    Ok(parsed)
}

/// What parsing gives is consistent.
pub proof fn lemma_parsed_consistent(p: JamParsed, stem: Seq<char>, s: Seq<u8>)
    requires
        jam_parse_error(s) is None,
        jam_parsed_from(p, stem, s),
    ensures
        parsed_consistent(p),
{
    let n = hdr_num_textures(s) as nat;
    assert forall|t: int| 0 <= t < n implies (#[trigger] p.textures@[t]).quarter_palette_size == record_qps(s, t) by {
        assert(texture_from_bytes(p.textures@[t], s, record_offset(t)));
    }
    lemma_palette_bytes_offset(p, s, n);
    assert forall|t: int| 0 <= t < n implies (#[trigger] p.textures@[t]).quarter_palette_size <= 256 by {
        lemma_no_oversized(s, n, t);
    }
}

proof fn lemma_palette_bytes_offset(p: JamParsed, s: Seq<u8>, k: nat)
    requires
        k <= p.textures@.len(),
        forall|t: int| 0 <= t < k ==> (#[trigger] p.textures@[t]).quarter_palette_size == record_qps(s, t),
    ensures
        palette_bytes(s, k) == palette_offset(p.textures@, k),
    decreases k,
{
    if k > 0 {
        lemma_palette_bytes_offset(p, s, (k - 1) as nat);
        assert(p.textures@[k - 1].quarter_palette_size == record_qps(s, k - 1));
    }
}

proof fn lemma_no_oversized(s: Seq<u8>, n: nat, t: int)
    requires
        first_oversized(s, n) is None,
        0 <= t < n,
    ensures
        record_qps(s, t) <= 256,
    decreases n,
{
    if t < n - 1 {
        lemma_no_oversized(s, (n - 1) as nat, t);
    }
}

proof fn lemma_first_oversized_stable(s: Seq<u8>, m: nat, n: nat)
    requires
        m <= n,
        first_oversized(s, m) is Some,
    ensures
        first_oversized(s, n) == first_oversized(s, m),
    decreases n - m,
{
    if m < n {
        lemma_first_oversized_stable(s, m, (n - 1) as nat);
    }
}

/// Reads the 32-byte texture record at `th`.
fn read_record(jam: &[u8], th: usize) -> (tx: JamTexture)
    requires
        th + 32 <= jam@.len(),
        th <= usize::MAX - 32,
    ensures
        texture_from_bytes(tx, jam@, th as int),
{
    let unk18: [u8; 8] = [
        jam[th + 24], jam[th + 25], jam[th + 26], jam[th + 27],
        jam[th + 28], jam[th + 29], jam[th + 30], jam[th + 31],
    ];
    assert(unk18@ =~= jam@.subrange(th + 24, th + 32));
    JamTexture {
        left: jam[th],
        top: jam[th + 1],
        unk02: le16_at(jam, th + 2),
        width: le16_at(jam, th + 4),
        height: le16_at(jam, th + 6),
        unk08: le16_at(jam, th + 8),
        unk0a: le16_at(jam, th + 10),
        image_ptr: le16_at(jam, th + 12),
        unk0e: le16_at(jam, th + 14),
        quarter_palette_size: le16_at(jam, th + 16),
        texture_id: le16_at(jam, th + 18),
        transparent: le16_at(jam, th + 20),
        unk16: jam[th + 22],
        unk17: jam[th + 23],
        unk18,
    }
}

/// The 16-bit field at `off`, which the caller has shown to lie in the buffer.
fn le16_at(buf: &[u8], off: usize) -> (v: u16)
    requires
        off + 2 <= buf@.len(),
        off <= usize::MAX - 2,
    ensures
        v == le16(buf@, off as int),
{
    match read_le16(buf, off) {
        Ok(v) => v,
        Err(_) => 0,
    }
}

/// Decrypts the bytes of a JAM file and parses them under the name `stem`;
/// an empty file is refused before anything else.
pub fn decode_jam_bytes(stem: String, data: Vec<u8>) -> (res: Result<JamParsed, JamError>)
    ensures
        match res {
            Ok(p) => data@.len() > 0 && jam_parse_error(jam_crypt(data@)) is None
                && jam_parsed_from(p, stem@, jam_crypt(data@)) && parsed_consistent(p),
            Err(e) => if data@.len() == 0 {
                e == JamError::FileTooSmall
            } else {
                jam_parse_error(jam_crypt(data@)) == Some(e)
            },
        },
{
    if data.len() == 0 {
        return Err(JamError::FileTooSmall);
    }
    let mut data = data;
    decrypt_encrypt_jam(data.as_mut_slice());
    parse_jam_decrypted(stem, data.as_slice())
}

} // verus!
