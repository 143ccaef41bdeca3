//! The `.jammeta.txt` metadata file: every texture record of an archive, the name
//! of its exported image and its four haze palettes, as lines of words.
//!
//! ```text
//! JAMMETA 1
//! stem <stem>
//! num_textures <N>
//! canvas_h <H>
//! texture <idx> left <L> top <T> width <W> height <H> unk02 <V> unk08 <V> unk0a <V> image_ptr <P> unk0e <V> qps <Q> texture_id <ID> transparent <T> unk16 <V> unk17 <V> png <name>
//! unk18 <b0> <b1> <b2> <b3> <b4> <b5> <b6> <b7>
//! pal1 <e0> ... <eN>
//! pal2 <e0> ... <eN>
//! pal3 <e0> ... <eN>
//! pal4 <e0> ... <eN>
//! ```
//!
//! Words are separated by one space and every line ends with a line feed.

use vstd::prelude::*;
use crate::canvas::palette_offset;
use crate::palettize::image_views;
use crate::text::{dec, dec_bytes, push_dec, join, lemma_dec, lemma_split_of_join, parse_dec, parse_num, push_joined, sep_free, split, split_bytes};
use crate::types::{JamError, JamParsed, JamTexture, MetaTexture};
use vstd::utf8::{decode_utf8, valid_utf8};

verus! {

/// One texture of a metadata file: its record, the name of its image file and
/// its four haze palettes.
#[derive(Clone, Debug, PartialEq, Eq)]
pub struct MetaFileTexture {
    pub tx: JamTexture,
    pub png_name: Vec<u8>,
    pub pals: Vec<Vec<u8>>,
}

/// A metadata file.
#[derive(Clone, Debug, PartialEq, Eq)]
pub struct JamMetaFile {
    pub stem: Vec<u8>,
    pub num_textures: u16,
    pub canvas_h: u16,
    pub textures: Vec<MetaFileTexture>,
}

/// What a texture of a metadata file holds.
pub struct TextureText {
    pub tx: JamTexture,
    pub png_name: Seq<u8>,
    pub pals: Seq<Seq<u8>>,
}

/// What a metadata file holds.
pub struct MetaText {
    pub stem: Seq<u8>,
    pub num_textures: u16,
    pub canvas_h: u16,
    pub textures: Seq<TextureText>,
}

/// The contents of `t`.
pub open spec fn texture_text(t: MetaFileTexture) -> TextureText {
    TextureText { tx: t.tx, png_name: t.png_name@, pals: image_views(t.pals@) }
}

/// The contents of `f`.
pub open spec fn meta_text(f: JamMetaFile) -> MetaText {
    MetaText {
        stem: f.stem@,
        num_textures: f.num_textures,
        canvas_h: f.canvas_h,
        textures: f.textures@.map_values(|t: MetaFileTexture| texture_text(t)),
    }
}

/// The ASCII bytes of `s`.
pub open spec fn ascii(s: Seq<char>) -> Seq<u8> {
    Seq::new(s.len(), |i: int| s[i] as u8)
}

/// The keywords of a texture line, each followed by a number.
pub open spec fn texture_keys() -> Seq<Seq<u8>> {
    seq![
        ascii("texture"@), ascii("left"@), ascii("top"@), ascii("width"@), ascii("height"@),
        ascii("unk02"@), ascii("unk08"@), ascii("unk0a"@), ascii("image_ptr"@), ascii("unk0e"@),
        ascii("qps"@), ascii("texture_id"@), ascii("transparent"@), ascii("unk16"@), ascii("unk17"@),
    ]
}

/// The numbers of the texture line of record `tx`, number `t`, in keyword order.
pub open spec fn texture_vals(tx: JamTexture, t: nat) -> Seq<nat> {
    seq![
        t, tx.left as nat, tx.top as nat, tx.width as nat, tx.height as nat,
        tx.unk02 as nat, tx.unk08 as nat, tx.unk0a as nat, tx.image_ptr as nat, tx.unk0e as nat,
        tx.quarter_palette_size as nat, tx.texture_id as nat, tx.transparent as nat, tx.unk16 as nat,
        tx.unk17 as nat,
    ]
}

/// The largest value each number of a texture line may take.
pub open spec fn texture_maxima() -> Seq<nat> {
    seq![99999, 255, 255, 65535, 65535, 65535, 65535, 65535, 65535, 65535, 65535, 65535, 65535, 255, 255]
}

/// Each keyword of `keys` followed by the digits of the matching number of `vals`.
pub open spec fn kv_words(keys: Seq<Seq<u8>>, vals: Seq<nat>) -> Seq<Seq<u8>> {
    Seq::new(2 * keys.len(), |j: int| if j % 2 == 0 { keys[j / 2] } else { dec(vals[j / 2]) })
}

/// `key` followed by the digits of each byte of `bytes`.
pub open spec fn byte_words(key: Seq<u8>, bytes: Seq<u8>) -> Seq<Seq<u8>> {
    seq![key] + Seq::new(bytes.len(), |i: int| dec(bytes[i] as nat))
}

/// The keyword of haze palette `k` (0 to 3).
pub open spec fn pal_key(k: int) -> Seq<u8> {
    seq![ascii("pal1"@), ascii("pal2"@), ascii("pal3"@), ascii("pal4"@)][k]
}

/// The six lines of texture `t`: its record, its unknown bytes, its four palettes.
pub open spec fn texture_lines(tt: TextureText, t: nat) -> Seq<Seq<Seq<u8>>> {
    seq![
        kv_words(texture_keys(), texture_vals(tt.tx, t)).push(ascii("png"@)).push(tt.png_name),
        byte_words(ascii("unk18"@), tt.tx.unk18@),
        byte_words(pal_key(0), tt.pals[0]),
        byte_words(pal_key(1), tt.pals[1]),
        byte_words(pal_key(2), tt.pals[2]),
        byte_words(pal_key(3), tt.pals[3]),
    ]
}

/// The four header lines.
pub open spec fn header_lines(m: MetaText) -> Seq<Seq<Seq<u8>>> {
    seq![
        seq![ascii("JAMMETA"@), dec(1)],
        seq![ascii("stem"@), m.stem],
        seq![ascii("num_textures"@), dec(m.num_textures as nat)],
        seq![ascii("canvas_h"@), dec(m.canvas_h as nat)],
    ]
}

/// The lines of the file of `m`, as words, and the empty line after the last line feed.
pub open spec fn meta_lines(m: MetaText) -> Seq<Seq<Seq<u8>>> {
    let n = m.textures.len();
    Seq::new(4 + 6 * n + 1, |i: int|
        if i < 4 {
            header_lines(m)[i]
        } else if i < 4 + 6 * n {
            texture_lines(m.textures[(i - 4) / 6], ((i - 4) / 6) as nat)[(i - 4) % 6]
        } else {
            seq![Seq::<u8>::empty()]
        }
    )
}

/// The bytes of lines of words: words joined by spaces, lines by line feeds.
pub open spec fn lines_bytes(ls: Seq<Seq<Seq<u8>>>) -> Seq<u8> {
    join(Seq::new(ls.len(), |i: int| join(ls[i], 32u8)), 10u8)
}

/// The bytes of the metadata file of `m`.
pub open spec fn meta_file_bytes(m: MetaText) -> Seq<u8> {
    lines_bytes(meta_lines(m))
}

/// The lines of `text`, each cut into its words.
pub open spec fn text_words(text: Seq<u8>) -> Seq<Seq<Seq<u8>>> {
    let ls = split(text, 10u8);
    Seq::new(ls.len(), |i: int| split(ls[i], 32u8))
}

/// The number that `w` writes.
pub open spec fn num(w: Seq<u8>) -> nat {
    parse_num(w)->0
}

/// `w` writes a number no larger than `max`.
pub open spec fn num_within(w: Seq<u8>, max: nat) -> bool {
    parse_num(w) is Some && num(w) <= max
}

/// `l` is the line of `key` followed by bytes, each written as a number.
pub open spec fn bytes_line_ok(l: Seq<Seq<u8>>, key: Seq<u8>) -> bool {
    &&& l.len() >= 1
    &&& l[0] == key
    &&& forall|i: int| 1 <= i < l.len() ==> num_within(#[trigger] l[i], 255)
}

/// The bytes that the line `l` of a key and numbers writes.
pub open spec fn line_bytes(l: Seq<Seq<u8>>) -> Seq<u8> {
    Seq::new((l.len() - 1) as nat, |i: int| num(l[i + 1]) as u8)
}

/// The six lines of texture group `g` in `ls` are well formed.
pub open spec fn texture_group_ok(ls: Seq<Seq<Seq<u8>>>, g: int) -> bool {
    let l = ls[4 + 6 * g];
    let keys = texture_keys();
    &&& l.len() == 32
    &&& forall|i: int| 0 <= i < 15 ==> l[2 * i] == #[trigger] keys[i]
    &&& forall|i: int| 0 <= i < 15 ==> num_within(l[2 * i + 1], #[trigger] texture_maxima()[i])
    &&& l[30] == ascii("png"@)
    &&& bytes_line_ok(ls[4 + 6 * g + 1], ascii("unk18"@))
    &&& ls[4 + 6 * g + 1].len() == 9
    &&& forall|k: int| 0 <= k < 4 ==> bytes_line_ok(ls[4 + 6 * g + 2 + k], #[trigger] pal_key(k))
}

/// `tt` is what texture group `g` of `ls` says.
pub open spec fn texture_group_describes(ls: Seq<Seq<Seq<u8>>>, g: int, tt: TextureText) -> bool {
    let l = ls[4 + 6 * g];
    let tx = tt.tx;
    &&& tx.left == num(l[3])
    &&& tx.top == num(l[5])
    &&& tx.width == num(l[7])
    &&& tx.height == num(l[9])
    &&& tx.unk02 == num(l[11])
    &&& tx.unk08 == num(l[13])
    &&& tx.unk0a == num(l[15])
    &&& tx.image_ptr == num(l[17])
    &&& tx.unk0e == num(l[19])
    &&& tx.quarter_palette_size == num(l[21])
    &&& tx.texture_id == num(l[23])
    &&& tx.transparent == num(l[25])
    &&& tx.unk16 == num(l[27])
    &&& tx.unk17 == num(l[29])
    &&& tt.png_name == l[31]
    &&& tx.unk18@ == line_bytes(ls[4 + 6 * g + 1])
    &&& tt.pals.len() == 4
    &&& forall|k: int| 0 <= k < 4 ==> #[trigger] tt.pals[k] == line_bytes(ls[4 + 6 * g + 2 + k])
}

/// The lines `ls` form a metadata file: the header, six lines per texture and
/// nothing after the last line feed.
pub open spec fn meta_lines_ok(ls: Seq<Seq<Seq<u8>>>) -> bool {
    &&& ls.len() >= 5
    &&& (ls.len() - 5) % 6 == 0
    &&& ls[0] == seq![ascii("JAMMETA"@), dec(1)]
    &&& ls[1].len() == 2 && ls[1][0] == ascii("stem"@)
    &&& ls[2].len() == 2 && ls[2][0] == ascii("num_textures"@) && num_within(ls[2][1], 65535)
    &&& ls[3].len() == 2 && ls[3][0] == ascii("canvas_h"@) && num_within(ls[3][1], 65535)
    &&& forall|g: int| 0 <= g < (ls.len() - 5) / 6 ==> #[trigger] texture_group_ok(ls, g)
    &&& ls[ls.len() - 1] == seq![Seq::<u8>::empty()]
}

/// `m` is what the lines `ls` of a metadata file say.
pub open spec fn meta_lines_describe(ls: Seq<Seq<Seq<u8>>>, m: MetaText) -> bool {
    &&& m.stem == ls[1][1]
    &&& m.num_textures == num(ls[2][1])
    &&& m.canvas_h == num(ls[3][1])
    &&& m.textures.len() == (ls.len() - 5) / 6
    &&& forall|g: int| 0 <= g < m.textures.len() ==> texture_group_describes(ls, g, #[trigger] m.textures[g])
}

/// `w` holds no space and no line feed.
pub open spec fn plain(w: Seq<u8>) -> bool {
    !w.contains(32u8) && !w.contains(10u8)
}

/// `m` can be written as a metadata file and read back: its names hold no space
/// and no line feed, each texture has four palettes, and texture numbers stay
/// within five digits.
pub open spec fn meta_text_wf(m: MetaText) -> bool {
    &&& plain(m.stem)
    &&& m.textures.len() <= 100000
    &&& forall|t: int| 0 <= t < m.textures.len()
        ==> plain((#[trigger] m.textures[t]).png_name) && m.textures[t].pals.len() == 4
}

proof fn lemma_keywords_plain()
    ensures
        forall|i: int| 0 <= i < 15 ==> plain(#[trigger] texture_keys()[i]),
        forall|k: int| 0 <= k < 4 ==> plain(#[trigger] pal_key(k)),
        plain(ascii("png"@)),
        plain(ascii("unk18"@)),
        plain(ascii("JAMMETA"@)),
        plain(ascii("stem"@)),
        plain(ascii("num_textures"@)),
        plain(ascii("canvas_h"@)),
{
    reveal_strlit("texture");
    reveal_strlit("left");
    reveal_strlit("top");
    reveal_strlit("width");
    reveal_strlit("height");
    reveal_strlit("unk02");
    reveal_strlit("unk08");
    reveal_strlit("unk0a");
    reveal_strlit("image_ptr");
    reveal_strlit("unk0e");
    reveal_strlit("qps");
    reveal_strlit("texture_id");
    reveal_strlit("transparent");
    reveal_strlit("unk16");
    reveal_strlit("unk17");
    reveal_strlit("pal1");
    reveal_strlit("pal2");
    reveal_strlit("pal3");
    reveal_strlit("pal4");
    reveal_strlit("png");
    reveal_strlit("unk18");
    reveal_strlit("JAMMETA");
    reveal_strlit("stem");
    reveal_strlit("num_textures");
    reveal_strlit("canvas_h");
    assert forall|i: int| 0 <= i < 15 implies plain(#[trigger] texture_keys()[i]) by {
        assert(i == 0 || i == 1 || i == 2 || i == 3 || i == 4 || i == 5 || i == 6 || i == 7
            || i == 8 || i == 9 || i == 10 || i == 11 || i == 12 || i == 13 || i == 14);
    }
    assert forall|k: int| 0 <= k < 4 implies plain(#[trigger] pal_key(k)) by {
        assert(k == 0 || k == 1 || k == 2 || k == 3);
    }
}

proof fn lemma_dec_plain_word(n: nat)
    requires
        n < 100000,
    ensures
        plain(dec(n)),
        parse_num(dec(n)) == Some(n),
{
    lemma_dec(n);
    crate::text::lemma_dec_plain(n, 32u8);
    crate::text::lemma_dec_plain(n, 10u8);
}

proof fn lemma_byte_words(key: Seq<u8>, bytes: Seq<u8>)
    requires
        plain(key),
    ensures
        forall|j: int| 0 <= j < byte_words(key, bytes).len() ==> plain(#[trigger] byte_words(key, bytes)[j]),
        bytes_line_ok(byte_words(key, bytes), key),
        line_bytes(byte_words(key, bytes)) == bytes,
{
    let l = byte_words(key, bytes);
    assert forall|j: int| 0 <= j < l.len() implies plain(#[trigger] l[j]) && (j >= 1 ==> num_within(l[j], 255)
        && num(l[j]) == bytes[j - 1]) by {
        if j >= 1 {
            assert(l[j] == dec(bytes[j - 1] as nat));
            lemma_dec_plain_word(bytes[j - 1] as nat);
        }
    }
    assert(line_bytes(l) =~= bytes);
}

proof fn lemma_texture_lines(tt: TextureText, t: nat)
    requires
        t < 100000,
        plain(tt.png_name),
        tt.pals.len() == 4,
    ensures
        forall|r: int, j: int| 0 <= r < 6 && 0 <= j < texture_lines(tt, t)[r].len()
            ==> plain(#[trigger] texture_lines(tt, t)[r][j]),
        forall|r: int| 0 <= r < 6 ==> (#[trigger] texture_lines(tt, t)[r]).len() >= 1,
{
    lemma_keywords_plain();
    let ls = texture_lines(tt, t);
    let keys = texture_keys();
    let vals = texture_vals(tt.tx, t);
    let l0 = ls[0];
    assert forall|j: int| 0 <= j < l0.len() implies plain(#[trigger] l0[j]) by {
        if j < 30 {
            if j % 2 == 0 {
                assert(plain(keys[j / 2]));
            } else {
                assert(vals[j / 2] < 100000);
                lemma_dec_plain_word(vals[j / 2]);
            }
        }
    }
    lemma_byte_words(ascii("unk18"@), tt.tx.unk18@);
    lemma_byte_words(pal_key(0), tt.pals[0]);
    lemma_byte_words(pal_key(1), tt.pals[1]);
    lemma_byte_words(pal_key(2), tt.pals[2]);
    lemma_byte_words(pal_key(3), tt.pals[3]);
    assert forall|r: int, j: int| 0 <= r < 6 && 0 <= j < ls[r].len() implies plain(#[trigger] ls[r][j]) by {
        assert(r == 0 || r == 1 || r == 2 || r == 3 || r == 4 || r == 5);
    }
}

proof fn lemma_meta_lines_plain(m: MetaText)
    requires
        meta_text_wf(m),
    ensures
        forall|i: int, j: int| 0 <= i < meta_lines(m).len() && 0 <= j < meta_lines(m)[i].len()
            ==> plain(#[trigger] meta_lines(m)[i][j]),
        forall|i: int| 0 <= i < meta_lines(m).len() ==> (#[trigger] meta_lines(m)[i]).len() >= 1,
{
    lemma_keywords_plain();
    let ls = meta_lines(m);
    let n = m.textures.len();
    lemma_dec_plain_word(1);
    lemma_dec_plain_word(m.num_textures as nat);
    lemma_dec_plain_word(m.canvas_h as nat);
    assert forall|i: int| 0 <= i < ls.len() implies (#[trigger] ls[i]).len() >= 1
        && forall|j: int| 0 <= j < ls[i].len() ==> plain(#[trigger] ls[i][j]) by {
        if 4 <= i < 4 + 6 * n {
            let g = (i - 4) / 6;
            assert(0 <= g < n);
            lemma_texture_lines(m.textures[g], g as nat);
            assert(ls[i] == texture_lines(m.textures[g], g as nat)[(i - 4) % 6]);
        } else if i >= 4 + 6 * n {
            assert(ls[i] == seq![Seq::<u8>::empty()]);
            assert forall|j: int| 0 <= j < ls[i].len() implies plain(#[trigger] ls[i][j]) by {
                assert(ls[i][j] == Seq::<u8>::empty());
            }
        } else {
            assert(i == 0 || i == 1 || i == 2 || i == 3);
        }
    }
}

proof fn lemma_join_avoids(ws: Seq<Seq<u8>>, sep: u8, c: u8)
    requires
        sep != c,
        forall|i: int| 0 <= i < ws.len() ==> !(#[trigger] ws[i]).contains(c),
    ensures
        !join(ws, sep).contains(c),
    decreases ws.len(),
{
    if ws.len() >= 2 {
        lemma_join_avoids(ws.drop_last(), sep, c);
        let a = join(ws.drop_last(), sep).push(sep);
        let b = ws.last();
        assert(!a.contains(c)) by {
            if a.contains(c) {
                let k = choose|k: int| 0 <= k < a.len() && a[k] == c;
                if k < a.len() - 1 {
                    assert(join(ws.drop_last(), sep)[k] == c);
                }
            }
        }
        assert(!b.contains(c));
        assert(!(a + b).contains(c)) by {
            if (a + b).contains(c) {
                let k = choose|k: int| 0 <= k < (a + b).len() && (a + b)[k] == c;
                if k < a.len() {
                    assert(a[k] == c);
                } else {
                    assert(b[k - a.len()] == c);
                }
            }
        }
    } else if ws.len() == 1 {
        assert(!ws[0].contains(c));
    }
}

/// Cutting the bytes of the metadata file of `m` into lines and words gives its lines back.
proof fn lemma_meta_file_words(m: MetaText)
    requires
        meta_text_wf(m),
    ensures
        text_words(meta_file_bytes(m)) == meta_lines(m),
{
    let ls = meta_lines(m);
    lemma_meta_lines_plain(m);
    let joined = Seq::new(ls.len(), |i: int| join(ls[i], 32u8));
    assert forall|i: int| 0 <= i < ls.len() implies sep_free(ls[i], 32u8) && !(#[trigger] joined[i]).contains(10u8) by {
        assert forall|j: int| 0 <= j < ls[i].len() implies !(#[trigger] ls[i][j]).contains(32u8) by {
            assert(plain(ls[i][j]));
        }
        assert forall|j: int| 0 <= j < ls[i].len() implies !(#[trigger] ls[i][j]).contains(10u8) by {
            assert(plain(ls[i][j]));
        }
        lemma_join_avoids(ls[i], 32u8, 10u8);
    }
    lemma_split_of_join(joined, 10u8);
    let tw = text_words(meta_file_bytes(m));
    assert forall|i: int| 0 <= i < ls.len() implies #[trigger] tw[i] == ls[i] by {
        assert(sep_free(ls[i], 32u8));
        lemma_split_of_join(ls[i], 32u8);
    }
    assert(tw =~= ls);
}

proof fn lemma_texture_group_says(m: MetaText, g: int)
    requires
        meta_text_wf(m),
        0 <= g < m.textures.len(),
    ensures
        texture_group_ok(meta_lines(m), g),
        texture_group_describes(meta_lines(m), g, m.textures[g]),
{
    let ls = meta_lines(m);
    lemma_keywords_plain();
    let tt = m.textures[g];
    let tl = texture_lines(tt, g as nat);
    assert forall|r: int| 0 <= r < 6 implies ls[4 + 6 * g + r] == #[trigger] tl[r] by {
        assert((4 + 6 * g + r - 4) / 6 == g);
        assert((4 + 6 * g + r - 4) % 6 == r);
    }
    let l = ls[4 + 6 * g];
    let vals = texture_vals(tt.tx, g as nat);
    assert forall|i: int| #![trigger texture_maxima()[i]] #![trigger vals[i]]
        0 <= i < 15 implies num_within(l[2 * i + 1], texture_maxima()[i])
        && num(l[2 * i + 1]) == vals[i] by {
        assert(l[2 * i + 1] == dec(vals[i]));
        assert(vals[i] <= texture_maxima()[i]);
        lemma_dec_plain_word(vals[i]);
    }
    assert(num(l[3]) == vals[1]);
    assert(num(l[5]) == vals[2]);
    assert(num(l[7]) == vals[3]);
    assert(num(l[9]) == vals[4]);
    assert(num(l[11]) == vals[5]);
    assert(num(l[13]) == vals[6]);
    assert(num(l[15]) == vals[7]);
    assert(num(l[17]) == vals[8]);
    assert(num(l[19]) == vals[9]);
    assert(num(l[21]) == vals[10]);
    assert(num(l[23]) == vals[11]);
    assert(num(l[25]) == vals[12]);
    assert(num(l[27]) == vals[13]);
    assert(num(l[29]) == vals[14]);
    assert forall|i: int| 0 <= i < 15 implies l[2 * i] == #[trigger] texture_keys()[i] by {}
    lemma_byte_words(ascii("unk18"@), tt.tx.unk18@);
    assert forall|k: int| 0 <= k < 4 implies bytes_line_ok(ls[4 + 6 * g + 2 + k], #[trigger] pal_key(k))
        && tt.pals[k] == line_bytes(ls[4 + 6 * g + 2 + k]) by {
        assert(ls[4 + 6 * g + 2 + k] == tl[2 + k]);
        lemma_byte_words(pal_key(k), tt.pals[k]);
        assert(k == 0 || k == 1 || k == 2 || k == 3);
    }
}

/// The lines of the metadata file of `m` are well formed and say `m`.
proof fn lemma_meta_lines_say(m: MetaText)
    requires
        meta_text_wf(m),
    ensures
        meta_lines_ok(meta_lines(m)),
        meta_lines_describe(meta_lines(m), m),
{
    let ls = meta_lines(m);
    let n = m.textures.len();
    lemma_keywords_plain();
    lemma_dec_plain_word(m.num_textures as nat);
    lemma_dec_plain_word(m.canvas_h as nat);
    assert((ls.len() - 5) / 6 == n);
    assert forall|g: int| 0 <= g < n implies #[trigger] texture_group_ok(ls, g) by {
        lemma_texture_group_says(m, g);
    }
    assert forall|g: int| 0 <= g < n implies texture_group_describes(ls, g, #[trigger] m.textures[g]) by {
        lemma_texture_group_says(m, g);
    }
}

/// In the metadata file of `m`, the line of texture `g` names every record field
/// and follows it with that field's value: `texture <g> left <left> top <top> width
/// <width> height <height> unk02 <unk02> unk08 <unk08> unk0a <unk0a> image_ptr
/// <image_ptr> unk0e <unk0e> qps <quarter_palette_size> texture_id <texture_id>
/// transparent <transparent> unk16 <unk16> unk17 <unk17> png <name>`. The next
/// line is `unk18` and the eight unknown bytes, then `pal1` to `pal4`, each with
/// the entries of its haze palette.
pub proof fn lemma_texture_lines_written(m: MetaText, g: int)
    requires
        0 <= g < m.textures.len(),
        m.textures[g].pals.len() == 4,
    ensures
        ({
        let ls = meta_lines(m);
        let l = ls[4 + 6 * g];
        let tt = m.textures[g];
        let tx = tt.tx;
        &&& l.len() == 32
        &&& l[0] == ascii("texture"@) && l[1] == dec(g as nat)
        &&& l[2] == ascii("left"@) && l[3] == dec(tx.left as nat)
        &&& l[4] == ascii("top"@) && l[5] == dec(tx.top as nat)
        &&& l[6] == ascii("width"@) && l[7] == dec(tx.width as nat)
        &&& l[8] == ascii("height"@) && l[9] == dec(tx.height as nat)
        &&& l[10] == ascii("unk02"@) && l[11] == dec(tx.unk02 as nat)
        &&& l[12] == ascii("unk08"@) && l[13] == dec(tx.unk08 as nat)
        &&& l[14] == ascii("unk0a"@) && l[15] == dec(tx.unk0a as nat)
        &&& l[16] == ascii("image_ptr"@) && l[17] == dec(tx.image_ptr as nat)
        &&& l[18] == ascii("unk0e"@) && l[19] == dec(tx.unk0e as nat)
        &&& l[20] == ascii("qps"@) && l[21] == dec(tx.quarter_palette_size as nat)
        &&& l[22] == ascii("texture_id"@) && l[23] == dec(tx.texture_id as nat)
        &&& l[24] == ascii("transparent"@) && l[25] == dec(tx.transparent as nat)
        &&& l[26] == ascii("unk16"@) && l[27] == dec(tx.unk16 as nat)
        &&& l[28] == ascii("unk17"@) && l[29] == dec(tx.unk17 as nat)
        &&& l[30] == ascii("png"@) && l[31] == tt.png_name
        &&& ls[4 + 6 * g + 1][0] == ascii("unk18"@)
        &&& ls[4 + 6 * g + 1].len() == 9
        &&& forall|i: int| 0 <= i < 8 ==> ls[4 + 6 * g + 1][i + 1] == dec(#[trigger] tx.unk18@[i] as nat)
        &&& ls[4 + 6 * g + 2][0] == ascii("pal1"@)
        &&& ls[4 + 6 * g + 2].len() == tt.pals[0].len() + 1
        &&& forall|i: int| 0 <= i < tt.pals[0].len() ==> ls[4 + 6 * g + 2][i + 1] == dec(#[trigger] tt.pals[0][i] as nat)
        &&& ls[4 + 6 * g + 3][0] == ascii("pal2"@)
        &&& ls[4 + 6 * g + 3].len() == tt.pals[1].len() + 1
        &&& forall|i: int| 0 <= i < tt.pals[1].len() ==> ls[4 + 6 * g + 3][i + 1] == dec(#[trigger] tt.pals[1][i] as nat)
        &&& ls[4 + 6 * g + 4][0] == ascii("pal3"@)
        &&& ls[4 + 6 * g + 4].len() == tt.pals[2].len() + 1
        &&& forall|i: int| 0 <= i < tt.pals[2].len() ==> ls[4 + 6 * g + 4][i + 1] == dec(#[trigger] tt.pals[2][i] as nat)
        &&& ls[4 + 6 * g + 5][0] == ascii("pal4"@)
        &&& ls[4 + 6 * g + 5].len() == tt.pals[3].len() + 1
        &&& forall|i: int| 0 <= i < tt.pals[3].len() ==> ls[4 + 6 * g + 5][i + 1] == dec(#[trigger] tt.pals[3][i] as nat)
        }),
{
    let ls = meta_lines(m);
    let tt = m.textures[g];
    let tl = texture_lines(tt, g as nat);
    assert forall|r: int| 0 <= r < 6 implies ls[4 + 6 * g + r] == #[trigger] tl[r] by {
        assert((4 + 6 * g + r - 4) / 6 == g);
        assert((4 + 6 * g + r - 4) % 6 == r);
    }
    assert(ls[4 + 6 * g] == tl[0]);
    assert(ls[4 + 6 * g + 1] == tl[1]);
    assert(ls[4 + 6 * g + 2] == tl[2]);
    assert(ls[4 + 6 * g + 3] == tl[3]);
    assert(ls[4 + 6 * g + 4] == tl[4]);
    assert(ls[4 + 6 * g + 5] == tl[5]);
}

/// Reading a texture group of a metadata file takes each record field from the
/// number after the keyword of its name: `left` gives the left edge, `top` the top
/// row, and so on for every field of the texture line; the unknown bytes come from
/// the `unk18` line and haze palette `k` from the line `pal<k+1>`.
pub proof fn lemma_texture_lines_read(ls: Seq<Seq<Seq<u8>>>, g: int, tt: TextureText)
    requires
        texture_group_ok(ls, g),
        texture_group_describes(ls, g, tt),
    ensures
        ({
        let l = ls[4 + 6 * g];
        let tx = tt.tx;
        &&& l[0] == ascii("texture"@)
        &&& l[2] == ascii("left"@) && tx.left == num(l[3])
        &&& l[4] == ascii("top"@) && tx.top == num(l[5])
        &&& l[6] == ascii("width"@) && tx.width == num(l[7])
        &&& l[8] == ascii("height"@) && tx.height == num(l[9])
        &&& l[10] == ascii("unk02"@) && tx.unk02 == num(l[11])
        &&& l[12] == ascii("unk08"@) && tx.unk08 == num(l[13])
        &&& l[14] == ascii("unk0a"@) && tx.unk0a == num(l[15])
        &&& l[16] == ascii("image_ptr"@) && tx.image_ptr == num(l[17])
        &&& l[18] == ascii("unk0e"@) && tx.unk0e == num(l[19])
        &&& l[20] == ascii("qps"@) && tx.quarter_palette_size == num(l[21])
        &&& l[22] == ascii("texture_id"@) && tx.texture_id == num(l[23])
        &&& l[24] == ascii("transparent"@) && tx.transparent == num(l[25])
        &&& l[26] == ascii("unk16"@) && tx.unk16 == num(l[27])
        &&& l[28] == ascii("unk17"@) && tx.unk17 == num(l[29])
        &&& l[30] == ascii("png"@) && tt.png_name == l[31]
        &&& ls[4 + 6 * g + 1][0] == ascii("unk18"@)
        &&& forall|i: int| 0 <= i < 8 ==> #[trigger] tx.unk18@[i] == num(ls[4 + 6 * g + 1][i + 1])
        &&& ls[4 + 6 * g + 2][0] == ascii("pal1"@)
        &&& ls[4 + 6 * g + 2].len() == tt.pals[0].len() + 1
        &&& forall|i: int| 0 <= i < tt.pals[0].len() ==> #[trigger] tt.pals[0][i] == num(ls[4 + 6 * g + 2][i + 1])
        &&& ls[4 + 6 * g + 3][0] == ascii("pal2"@)
        &&& ls[4 + 6 * g + 3].len() == tt.pals[1].len() + 1
        &&& forall|i: int| 0 <= i < tt.pals[1].len() ==> #[trigger] tt.pals[1][i] == num(ls[4 + 6 * g + 3][i + 1])
        &&& ls[4 + 6 * g + 4][0] == ascii("pal3"@)
        &&& ls[4 + 6 * g + 4].len() == tt.pals[2].len() + 1
        &&& forall|i: int| 0 <= i < tt.pals[2].len() ==> #[trigger] tt.pals[2][i] == num(ls[4 + 6 * g + 4][i + 1])
        &&& ls[4 + 6 * g + 5][0] == ascii("pal4"@)
        &&& ls[4 + 6 * g + 5].len() == tt.pals[3].len() + 1
        &&& forall|i: int| 0 <= i < tt.pals[3].len() ==> #[trigger] tt.pals[3][i] == num(ls[4 + 6 * g + 5][i + 1])
        }),
{
    let l = ls[4 + 6 * g];
    let keys = texture_keys();
    assert(l[0] == keys[0]);
    assert(l[2] == keys[1]);
    assert(l[4] == keys[2]);
    assert(l[6] == keys[3]);
    assert(l[8] == keys[4]);
    assert(l[10] == keys[5]);
    assert(l[12] == keys[6]);
    assert(l[14] == keys[7]);
    assert(l[16] == keys[8]);
    assert(l[18] == keys[9]);
    assert(l[20] == keys[10]);
    assert(l[22] == keys[11]);
    assert(l[24] == keys[12]);
    assert(l[26] == keys[13]);
    assert(l[28] == keys[14]);
    assert(bytes_line_ok(ls[4 + 6 * g + 2], pal_key(0)));
    assert(bytes_line_ok(ls[4 + 6 * g + 3], pal_key(1)));
    assert(bytes_line_ok(ls[4 + 6 * g + 4], pal_key(2)));
    assert(bytes_line_ok(ls[4 + 6 * g + 5], pal_key(3)));
    assert(tt.pals[0] == line_bytes(ls[4 + 6 * g + 2]));
    assert(tt.pals[1] == line_bytes(ls[4 + 6 * g + 3]));
    assert(tt.pals[2] == line_bytes(ls[4 + 6 * g + 4]));
    assert(tt.pals[3] == line_bytes(ls[4 + 6 * g + 5]));
    assert forall|i: int| 0 <= i < 8 implies #[trigger] tt.tx.unk18@[i] == num(ls[4 + 6 * g + 1][i + 1]) by {
        assert(num_within(ls[4 + 6 * g + 1][i + 1], 255));
    }
}

/// Writing a metadata file and reading it back gives what was written: the lines
/// of its bytes are well formed, and whatever they say is `m`.
pub proof fn lemma_meta_file_roundtrip(m: MetaText, r: MetaText)
    requires
        meta_text_wf(m),
        meta_lines_describe(text_words(meta_file_bytes(m)), r),
    ensures
        meta_lines_ok(text_words(meta_file_bytes(m))),
        r == m,
{
    lemma_meta_file_words(m);
    lemma_meta_lines_say(m);
    let ls = meta_lines(m);
    assert forall|g: int| 0 <= g < m.textures.len() implies #[trigger] r.textures[g] == m.textures[g] by {
        let a = r.textures[g];
        let b = m.textures[g];
        assert(texture_group_describes(ls, g, a));
        assert(texture_group_describes(ls, g, b));
        assert(a.tx.unk18@ == b.tx.unk18@);
        broadcast use vstd::array::axiom_array_ext_equal;
        assert(a.tx.unk18 =~= b.tx.unk18);
        assert(a.tx == b.tx);
        assert(a.pals =~= b.pals) by {
            assert forall|k: int| 0 <= k < 4 implies a.pals[k] == b.pals[k] by {
                assert(a.pals[k] == line_bytes(ls[4 + 6 * g + 2 + k]));
            }
        }
    }
    assert(r.textures =~= m.textures);
}

proof fn lemma_views_push(vs: Seq<Vec<u8>>, v: Vec<u8>)
    ensures
        image_views(vs.push(v)) == image_views(vs).push(v@),
{
    assert(image_views(vs.push(v)) =~= image_views(vs).push(v@));
}

/// The bytes of the ASCII text `s`.
fn lit(s: &str) -> (b: Vec<u8>)
    requires
        vstd::string::is_ascii(s),
    ensures
        b@ == ascii(s@),
{
    proof {
        vstd::string::is_ascii_spec_bytes(s);
    }
    vstd::slice::slice_to_vec(s.as_bytes())
}

/// The keywords of a texture line.
fn texture_keys_exec() -> (ks: Vec<Vec<u8>>)
    ensures
        image_views(ks@) == texture_keys(),
{
    proof {
        reveal_strlit("texture");
        reveal_strlit("left");
        reveal_strlit("top");
        reveal_strlit("width");
        reveal_strlit("height");
        reveal_strlit("unk02");
        reveal_strlit("unk08");
        reveal_strlit("unk0a");
        reveal_strlit("image_ptr");
        reveal_strlit("unk0e");
        reveal_strlit("qps");
        reveal_strlit("texture_id");
        reveal_strlit("transparent");
        reveal_strlit("unk16");
        reveal_strlit("unk17");
    }
    let mut ks: Vec<Vec<u8>> = Vec::new();
    ks.push(lit("texture"));
    ks.push(lit("left"));
    ks.push(lit("top"));
    ks.push(lit("width"));
    ks.push(lit("height"));
    ks.push(lit("unk02"));
    ks.push(lit("unk08"));
    ks.push(lit("unk0a"));
    ks.push(lit("image_ptr"));
    ks.push(lit("unk0e"));
    ks.push(lit("qps"));
    ks.push(lit("texture_id"));
    ks.push(lit("transparent"));
    ks.push(lit("unk16"));
    ks.push(lit("unk17"));
    assert(image_views(ks@) =~= texture_keys());
    ks
}

/// The keyword of haze palette `k`.
fn pal_key_exec(k: usize) -> (b: Vec<u8>)
    requires
        k < 4,
    ensures
        b@ == pal_key(k as int),
{
    proof {
        reveal_strlit("pal1");
        reveal_strlit("pal2");
        reveal_strlit("pal3");
        reveal_strlit("pal4");
    }
    if k == 0 {
        lit("pal1")
    } else if k == 1 {
        lit("pal2")
    } else if k == 2 {
        lit("pal3")
    } else {
        lit("pal4")
    }
}

/// The numbers of the texture line of `tx`, number `t`.
fn texture_vals_exec(tx: &JamTexture, t: u32) -> (v: Vec<u32>)
    ensures
        v@.len() == 15,
        forall|i: int| 0 <= i < 15 ==> #[trigger] v@[i] as nat == texture_vals(*tx, t as nat)[i],
{
    let mut v: Vec<u32> = Vec::new();
    v.push(t);
    v.push(tx.left as u32);
    v.push(tx.top as u32);
    v.push(tx.width as u32);
    v.push(tx.height as u32);
    v.push(tx.unk02 as u32);
    v.push(tx.unk08 as u32);
    v.push(tx.unk0a as u32);
    v.push(tx.image_ptr as u32);
    v.push(tx.unk0e as u32);
    v.push(tx.quarter_palette_size as u32);
    v.push(tx.texture_id as u32);
    v.push(tx.transparent as u32);
    v.push(tx.unk16 as u32);
    v.push(tx.unk17 as u32);
    v
}

/// The words of `key` followed by the digits of each byte of `bytes`.
fn byte_words_exec(key: Vec<u8>, bytes: &[u8]) -> (l: Vec<Vec<u8>>)
    ensures
        image_views(l@) == byte_words(key@, bytes@),
{
    let ghost kv = key@;
    let mut l: Vec<Vec<u8>> = Vec::new();
    l.push(key);
    let mut i: usize = 0;
    while i < bytes.len()
        invariant
            i <= bytes@.len(),
            image_views(l@) == byte_words(kv, bytes@.take(i as int)),
        decreases bytes@.len() - i,
    {
        let ghost old = l@;
        let d = dec_bytes(bytes[i] as u32);
        l.push(d);
        proof {
            lemma_views_push(old, d);
            assert(byte_words(kv, bytes@.take((i + 1) as int))
                =~= byte_words(kv, bytes@.take(i as int)).push(dec(bytes@[i as int] as nat)));
        }
        i = i + 1;
    }
    assert(bytes@.take(bytes@.len() as int) =~= bytes@);
    l
}

/// The words of the texture line of `tt`, number `t`.
fn texture_line_exec(tt: &MetaFileTexture, t: u32) -> (l: Vec<Vec<u8>>)
    ensures
        image_views(l@) == kv_words(texture_keys(), texture_vals(tt.tx, t as nat)).push(ascii("png"@)).push(tt.png_name@),
{
    let keys = texture_keys_exec();
    let vals = texture_vals_exec(&tt.tx, t);
    let ghost kw = kv_words(texture_keys(), texture_vals(tt.tx, t as nat));
    let mut l: Vec<Vec<u8>> = Vec::new();
    let mut i: usize = 0;
    while i < 15
        invariant
            i <= 15,
            image_views(keys@) == texture_keys(),
            vals@.len() == 15,
            forall|k: int| 0 <= k < 15 ==> #[trigger] vals@[k] as nat == texture_vals(tt.tx, t as nat)[k],
            kw == kv_words(texture_keys(), texture_vals(tt.tx, t as nat)),
            image_views(l@) == kw.take(2 * i),
        decreases 15 - i,
    {
        assert(image_views(keys@)[i as int] == keys@[i as int]@);
        let ghost old = l@;
        let kb = vstd::slice::slice_to_vec(keys[i].as_slice());
        l.push(kb);
        let ghost mid = l@;
        let d = dec_bytes(vals[i]);
        l.push(d);
        proof {
            lemma_views_push(old, kb);
            lemma_views_push(mid, d);
            assert(kw[2 * i] == texture_keys()[i as int]);
            assert(kw[2 * i + 1] == dec(texture_vals(tt.tx, t as nat)[i as int]));
            assert(kw.take(2 * (i + 1)) =~= kw.take(2 * i).push(kw[2 * i]).push(kw[2 * i + 1]));
        }
        i = i + 1;
    }
    assert(kw.take(30) =~= kw);
    proof {
        reveal_strlit("png");
    }
    let ghost old = l@;
    let p = lit("png");
    l.push(p);
    let ghost mid = l@;
    let nm = vstd::slice::slice_to_vec(tt.png_name.as_slice());
    l.push(nm);
    proof {
        lemma_views_push(old, p);
        lemma_views_push(mid, nm);
    }
    l
}

/// The lines of the file, as words, each cut into its words.
pub open spec fn line_views(ls: Seq<Vec<Vec<u8>>>) -> Seq<Seq<Seq<u8>>> {
    Seq::new(ls.len(), |i: int| image_views(ls[i]@))
}

/// The lines of the metadata file of `f`, as words.
fn meta_lines_exec(f: &JamMetaFile) -> (ls: Vec<Vec<Vec<u8>>>)
    requires
        f.textures@.len() <= u32::MAX,
        forall|t: int| 0 <= t < f.textures@.len() ==> (#[trigger] f.textures@[t]).pals@.len() == 4,
    ensures
        line_views(ls@) == meta_lines(meta_text(*f)),
{
    let ghost m = meta_text(*f);
    let ghost ml = meta_lines(m);
    proof {
        reveal_strlit("JAMMETA");
        reveal_strlit("stem");
        reveal_strlit("num_textures");
        reveal_strlit("canvas_h");
        reveal_strlit("unk18");
    }
    let n = f.textures.len();
    let mut ls: Vec<Vec<Vec<u8>>> = Vec::new();
    let mut l0: Vec<Vec<u8>> = Vec::new();
    l0.push(lit("JAMMETA"));
    l0.push(dec_bytes(1));
    ls.push(l0);
    let mut l1: Vec<Vec<u8>> = Vec::new();
    l1.push(lit("stem"));
    l1.push(vstd::slice::slice_to_vec(f.stem.as_slice()));
    ls.push(l1);
    let mut l2: Vec<Vec<u8>> = Vec::new();
    l2.push(lit("num_textures"));
    l2.push(dec_bytes(f.num_textures as u32));
    ls.push(l2);
    let mut l3: Vec<Vec<u8>> = Vec::new();
    l3.push(lit("canvas_h"));
    l3.push(dec_bytes(f.canvas_h as u32));
    ls.push(l3);
    assert(line_views(ls@) =~= ml.take(4)) by {
        assert(image_views(ls@[0]@) =~= ml[0]);
        assert(image_views(ls@[1]@) =~= ml[1]);
        assert(image_views(ls@[2]@) =~= ml[2]);
        assert(image_views(ls@[3]@) =~= ml[3]);
    }
    let mut t: usize = 0;
    while t < n
        invariant
            n == f.textures@.len(),
            n <= u32::MAX,
            forall|k: int| 0 <= k < n ==> (#[trigger] f.textures@[k]).pals@.len() == 4,
            m == meta_text(*f),
            ml == meta_lines(m),
            t <= n,
            line_views(ls@) == ml.take(4 + 6 * t),
        decreases n - t,
    {
        let tt = &f.textures[t];
        let ghost tl = texture_lines(m.textures[t as int], t as nat);
        assert(m.textures[t as int] == texture_text(*tt));
        let ghost before = ls@;
        assert(m.textures.len() == n);
        assert(ml.len() == 4 + 6 * n + 1);
        assert(line_views(ls@).len() == ls@.len());
        assert(before.len() == 4 + 6 * t);
        proof {
            reveal_strlit("unk18");
        }
        ls.push(texture_line_exec(tt, t as u32));
        ls.push(byte_words_exec(lit("unk18"), tt.tx.unk18.as_slice()));
        let mut k: usize = 0;
        while k < 4
            invariant
                k <= 4,
                tt.pals@.len() == 4,
                tl == texture_lines(texture_text(*tt), t as nat),
                ls@.len() == before.len() + 2 + k,
                forall|j: int| 0 <= j < before.len() ==> #[trigger] ls@[j] == before[j],
                image_views(ls@[before.len() as int]@) == tl[0],
                image_views(ls@[before.len() + 1int]@) == tl[1],
                forall|j: int| 0 <= j < k ==> image_views(#[trigger] ls@[before.len() + 2int + j]@) == tl[2 + j],
            decreases 4 - k,
        {
            assert(image_views(tt.pals@)[k as int] == tt.pals@[k as int]@);
            ls.push(byte_words_exec(pal_key_exec(k), tt.pals[k].as_slice()));
            assert(tl[2 + k] == byte_words(pal_key(k as int), image_views(tt.pals@)[k as int])) by {
                assert(k == 0 || k == 1 || k == 2 || k == 3);
            }
            k = k + 1;
        }
        assert(line_views(ls@) =~= ml.take(4 + 6 * (t + 1))) by {
            assert forall|i: int| 0 <= i < 4 + 6 * (t + 1) implies #[trigger] line_views(ls@)[i] == ml[i] by {
                if i < 4 + 6 * t {
                    assert(ls@[i] == before[i]);
                    assert(line_views(before)[i] == ml.take(4 + 6 * t)[i]);
                } else {
                    let r = i - (4 + 6 * t);
                    assert((i - 4) / 6 == t);
                    assert((i - 4) % 6 == r);
                    assert(ml[i] == tl[r]);
                    assert(r == 0 || r == 1 || r == 2 || r == 3 || r == 4 || r == 5);
                    if r >= 2 {
                        assert(ls@[i] == ls@[before.len() + 2int + (r - 2)]);
                    }
                }
            }
        }
        t = t + 1;
    }
    let ghost before = ls@;
    let mut last: Vec<Vec<u8>> = Vec::new();
    last.push(Vec::new());
    ls.push(last);
    assert(line_views(ls@) =~= ml) by {
        assert(image_views(ls@[ls@.len() - 1]@) =~= seq![Seq::<u8>::empty()]);
        assert forall|i: int| 0 <= i < ls@.len() - 1 implies #[trigger] line_views(ls@)[i] == ml[i] by {
            assert(ls@[i] == before[i]);
            assert(line_views(before)[i] == ml.take(4 + 6 * n)[i]);
        }
    }
    ls
}

/// The bytes of the lines `ls` of words.
fn lines_to_bytes(ls: &Vec<Vec<Vec<u8>>>) -> (out: Vec<u8>)
    ensures
        out@ == lines_bytes(line_views(ls@)),
{
    let ghost lv = line_views(ls@);
    let mut joined: Vec<Vec<u8>> = Vec::new();
    let mut i: usize = 0;
    while i < ls.len()
        invariant
            lv == line_views(ls@),
            i <= ls@.len(),
            image_views(joined@) == Seq::new(i as nat, |k: int| join(lv[k], 32u8)),
        decreases ls@.len() - i,
    {
        let mut line: Vec<u8> = Vec::new();
        push_joined(&mut line, &ls[i], 32u8);
        assert(line@ =~= join(lv[i as int], 32u8));
        let ghost old = joined@;
        joined.push(line);
        proof {
            lemma_views_push(old, line);
        }
        assert(image_views(joined@) =~= Seq::new((i + 1) as nat, |k: int| join(lv[k], 32u8)));
        i = i + 1;
    }
    let mut out: Vec<u8> = Vec::new();
    push_joined(&mut out, &joined, 10u8);
    assert(out@ =~= lines_bytes(lv));
    out
}

/// Writes the metadata file of `f`.
pub fn write_meta_file(f: &JamMetaFile) -> (text: Vec<u8>)
    requires
        f.textures@.len() <= u32::MAX,
        forall|t: int| 0 <= t < f.textures@.len() ==> (#[trigger] f.textures@[t]).pals@.len() == 4,
    ensures
        text@ == meta_file_bytes(meta_text(*f)),
{
    let ls = meta_lines_exec(f);
    lines_to_bytes(&ls)
}

/// Whether `a` and `b` hold the same bytes.
fn bytes_eq(a: &[u8], b: &[u8]) -> (r: bool)
    ensures
        r == (a@ == b@),
{
    if a.len() != b.len() {
        return false;
    }
    let mut i: usize = 0;
    while i < a.len()
        invariant
            a@.len() == b@.len(),
            i <= a@.len(),
            forall|k: int| 0 <= k < i ==> a@[k] == b@[k],
        decreases a@.len() - i,
    {
        if a[i] != b[i] {
            return false;
        }
        i = i + 1;
    }
    assert(a@ =~= b@);
    true
}

/// The largest value of each number of a texture line.
fn texture_maxima_exec() -> (v: Vec<u32>)
    ensures
        v@.len() == 15,
        forall|i: int| 0 <= i < 15 ==> #[trigger] v@[i] as nat == texture_maxima()[i],
{
    let mut v: Vec<u32> = Vec::new();
    v.push(99999);
    v.push(255);
    v.push(255);
    let mut i: usize = 0;
    while i < 10
        invariant
            i <= 10,
            v@.len() == 3 + i,
            v@[0] == 99999 && v@[1] == 255 && v@[2] == 255,
            forall|k: int| 3 <= k < 3 + i ==> v@[k] == 65535,
        decreases 10 - i,
    {
        v.push(65535);
        i = i + 1;
    }
    v.push(255);
    v.push(255);
    v
}

/// Reads the line `l` of `key` followed by bytes written as numbers.
fn read_bytes_line(l: &Vec<Vec<u8>>, key: &[u8]) -> (r: Option<Vec<u8>>)
    ensures
        match r {
            Some(b) => bytes_line_ok(image_views(l@), key@) && b@ == line_bytes(image_views(l@)),
            None => !bytes_line_ok(image_views(l@), key@),
        },
{
    let ghost lv = image_views(l@);
    if l.len() == 0 {
        return None;
    }
    assert(lv[0] == l@[0]@);
    if !bytes_eq(l[0].as_slice(), key) {
        return None;
    }
    let mut b: Vec<u8> = Vec::new();
    let mut i: usize = 1;
    while i < l.len()
        invariant
            lv == image_views(l@),
            1 <= i <= l@.len(),
            forall|k: int| 1 <= k < i ==> num_within(#[trigger] lv[k], 255),
            b@ == Seq::new((i - 1) as nat, |k: int| num(lv[k + 1]) as u8),
        decreases l@.len() - i,
    {
        assert(lv[i as int] == l@[i as int]@);
        match parse_dec(l[i].as_slice()) {
            Some(v) => {
                if v > 255 {
                    return None;
                }
                b.push(v as u8);
                assert(b@ =~= Seq::new(i as nat, |k: int| num(lv[k + 1]) as u8));
            },
            None => {
                return None;
            },
        }
        i = i + 1;
    }
    assert(b@ =~= line_bytes(lv));
    Some(b)
}

/// Reads texture group `g` of the lines `ls`.
fn read_texture_group(ls: &Vec<Vec<Vec<u8>>>, g: usize) -> (r: Option<MetaFileTexture>)
    requires
        4 + 6 * g + 6 <= ls@.len(),
    ensures
        match r {
            Some(tt) => texture_group_ok(line_views(ls@), g as int)
                && texture_group_describes(line_views(ls@), g as int, texture_text(tt)),
            None => !texture_group_ok(line_views(ls@), g as int),
        },
{
    let ghost lsv = line_views(ls@);
    let len = ls.len();
    assert(4 + 6 * g + 6 <= len);
    let base = 4 + 6 * g;
    let l = &ls[base];
    let ghost lv = image_views(l@);
    assert(lsv[base as int] == lv);
    if l.len() != 32 {
        return None;
    }
    let keys = texture_keys_exec();
    assert(keys@.len() == 15) by {
        assert(image_views(keys@).len() == keys@.len());
    }
    let maxima = texture_maxima_exec();
    let mut vals: Vec<u32> = Vec::new();
    let mut i: usize = 0;
    while i < 15
        invariant
            lsv == line_views(ls@),
            lv == image_views(l@),
            base == 4 + 6 * g,
            base + 6 <= lsv.len(),
            lsv[base as int] == lv,
            l@.len() == 32,
            image_views(keys@) == texture_keys(),
            keys@.len() == 15,
            maxima@.len() == 15,
            forall|k: int| 0 <= k < 15 ==> #[trigger] maxima@[k] as nat == texture_maxima()[k],
            i <= 15,
            vals@.len() == i,
            forall|k: int| 0 <= k < i ==> lv[2 * k] == #[trigger] texture_keys()[k],
            forall|k: int| 0 <= k < i ==> num_within(lv[2 * k + 1], #[trigger] texture_maxima()[k]),
            forall|k: int| 0 <= k < i ==> #[trigger] vals@[k] as nat == num(lv[2 * k + 1]),
        decreases 15 - i,
    {
        assert(lv[2 * i as int] == l@[2 * i as int]@);
        assert(lv[2 * i + 1] == l@[2 * i + 1]@);
        assert(image_views(keys@)[i as int] == keys@[i as int]@);
        if !bytes_eq(l[2 * i].as_slice(), keys[i].as_slice()) {
            assert(lv[2 * i as int] != texture_keys()[i as int]);
            return None;
        }
        match parse_dec(l[2 * i + 1].as_slice()) {
            Some(v) => {
                if v > maxima[i] {
                    assert(!num_within(lv[2 * i + 1], texture_maxima()[i as int]));
                    return None;
                }
                vals.push(v);
            },
            None => {
                assert(!num_within(lv[2 * i + 1], texture_maxima()[i as int]));
                return None;
            },
        }
        i = i + 1;
    }
    proof {
        reveal_strlit("png");
        reveal_strlit("unk18");
    }
    assert(lv[30] == l@[30]@);
    assert(lv[31] == l@[31]@);
    if !bytes_eq(l[30].as_slice(), lit("png").as_slice()) {
        return None;
    }
    let png_name = vstd::slice::slice_to_vec(l[31].as_slice());
    let u = &ls[base + 1];
    assert(lsv[base + 1] == image_views(u@));
    if u.len() != 9 {
        return None;
    }
    let b = match read_bytes_line(u, lit("unk18").as_slice()) {
        Some(b) => b,
        None => return None,
    };
    let unk18: [u8; 8] = [b[0], b[1], b[2], b[3], b[4], b[5], b[6], b[7]];
    assert(unk18@ =~= b@);
    let mut pals: Vec<Vec<u8>> = Vec::new();
    let mut k: usize = 0;
    while k < 4
        invariant
            lsv == line_views(ls@),
            4 + 6 * g + 6 <= ls@.len(),
            base == 4 + 6 * g,
            k <= 4,
            pals@.len() == k,
            forall|j: int| 0 <= j < k ==> bytes_line_ok(lsv[base + 2 + j], #[trigger] pal_key(j)),
            forall|j: int| 0 <= j < k ==> #[trigger] pals@[j]@ == line_bytes(lsv[base + 2 + j]),
        decreases 4 - k,
    {
        assert(lsv[(base + 2 + k) as int] == image_views(ls@[(base + 2 + k) as int]@));
        match read_bytes_line(&ls[base + 2 + k], pal_key_exec(k).as_slice()) {
            Some(p) => {
                pals.push(p);
            },
            None => {
                return None;
            },
        }
        k = k + 1;
    }
    let tx = JamTexture {
        left: vals[1] as u8,
        top: vals[2] as u8,
        unk02: vals[5] as u16,
        width: vals[3] as u16,
        height: vals[4] as u16,
        unk08: vals[6] as u16,
        unk0a: vals[7] as u16,
        image_ptr: vals[8] as u16,
        unk0e: vals[9] as u16,
        quarter_palette_size: vals[10] as u16,
        texture_id: vals[11] as u16,
        transparent: vals[12] as u16,
        unk16: vals[13] as u8,
        unk17: vals[14] as u8,
        unk18,
    };
    let tt = MetaFileTexture { tx, png_name, pals };
    proof {
        assert forall|j: int| 1 <= j < 15 implies vals@[j] as nat <= texture_maxima()[j] && #[trigger] vals@[j] as nat == num(lv[2 * j + 1]) by {}
        assert(vals@[1] as nat == num(lv[3]));
        assert(vals@[2] as nat == num(lv[5]));
        assert(vals@[3] as nat == num(lv[7]));
        assert(vals@[4] as nat == num(lv[9]));
        assert(vals@[5] as nat == num(lv[11]));
        assert(vals@[6] as nat == num(lv[13]));
        assert(vals@[7] as nat == num(lv[15]));
        assert(vals@[8] as nat == num(lv[17]));
        assert(vals@[9] as nat == num(lv[19]));
        assert(vals@[10] as nat == num(lv[21]));
        assert(vals@[11] as nat == num(lv[23]));
        assert(vals@[12] as nat == num(lv[25]));
        assert(vals@[13] as nat == num(lv[27]));
        assert(vals@[14] as nat == num(lv[29]));
        assert(texture_text(tt).pals =~= image_views(pals@));
        assert forall|j: int| 0 <= j < 4 implies #[trigger] texture_text(tt).pals[j] == line_bytes(lsv[4 + 6 * g + 2 + j]) by {
            assert(image_views(pals@)[j] == pals@[j]@);
        }
    }
    Some(tt)
}

/// Reads a metadata file.
pub fn read_meta_file(text: &[u8]) -> (r: Result<JamMetaFile, JamError>)
    ensures
        match r {
            Ok(f) => meta_lines_ok(text_words(text@)) && meta_lines_describe(text_words(text@), meta_text(f)),
            Err(e) => e == JamError::MetaSyntax && !meta_lines_ok(text_words(text@)),
        },
{
    let ghost tw = text_words(text@);
    let lines = split_bytes(text, 10u8);
    assert(tw.len() == lines@.len()) by {
        assert(image_views(lines@).len() == lines@.len());
    }
    let mut ls: Vec<Vec<Vec<u8>>> = Vec::new();
    let mut i: usize = 0;
    while i < lines.len()
        invariant
            tw == text_words(text@),
            image_views(lines@) == split(text@, 10u8),
            tw.len() == lines@.len(),
            i <= lines@.len(),
            ls@.len() == i,
            line_views(ls@) == tw.take(i as int),
        decreases lines@.len() - i,
    {
        assert(image_views(lines@)[i as int] == lines@[i as int]@);
        let ghost old = ls@;
        ls.push(split_bytes(lines[i].as_slice(), 32u8));
        assert(line_views(ls@) =~= tw.take((i + 1) as int)) by {
            assert forall|k: int| 0 <= k < i implies #[trigger] line_views(ls@)[k] == tw[k] by {
                assert(ls@[k] == old[k]);
                assert(line_views(old)[k] == tw.take(i as int)[k]);
            }
        }
        i = i + 1;
    }
    assert(line_views(ls@) =~= tw);
    let n = ls.len();
    assert(tw.len() == n);
    if n < 5 || (n - 5) % 6 != 0 {
        assert(!meta_lines_ok(tw));
        return Err(JamError::MetaSyntax);
    }
    proof {
        reveal_strlit("JAMMETA");
        reveal_strlit("stem");
        reveal_strlit("num_textures");
        reveal_strlit("canvas_h");
    }
    assert(tw[0] == image_views(ls@[0]@));
    assert(tw[1] == image_views(ls@[1]@));
    assert(tw[2] == image_views(ls@[2]@));
    assert(tw[3] == image_views(ls@[3]@));
    assert(tw[n - 1] == image_views(ls@[n - 1]@));
    if ls[0].len() != 2 || !bytes_eq(ls[0][0].as_slice(), lit("JAMMETA").as_slice())
        || !bytes_eq(ls[0][1].as_slice(), dec_bytes(1).as_slice()) {
        proof {
            if ls@[0]@.len() == 2 {
                assert(tw[0][0] == ls@[0]@[0]@);
                assert(tw[0][1] == ls@[0]@[1]@);
            }
        }
        return Err(JamError::MetaSyntax);
    }
    assert(tw[0] =~= seq![ascii("JAMMETA"@), dec(1)]) by {
        assert(tw[0][0] == ls@[0]@[0]@);
        assert(tw[0][1] == ls@[0]@[1]@);
    }
    if ls[1].len() != 2 || !bytes_eq(ls[1][0].as_slice(), lit("stem").as_slice()) {
        proof {
            if ls@[1]@.len() == 2 {
                assert(tw[1][0] == ls@[1]@[0]@);
            }
        }
        return Err(JamError::MetaSyntax);
    }
    assert(tw[1][0] == ls@[1]@[0]@);
    assert(tw[1][1] == ls@[1]@[1]@);
    if ls[2].len() != 2 || !bytes_eq(ls[2][0].as_slice(), lit("num_textures").as_slice()) {
        proof {
            if ls@[2]@.len() == 2 {
                assert(tw[2][0] == ls@[2]@[0]@);
            }
        }
        return Err(JamError::MetaSyntax);
    }
    assert(tw[2][0] == ls@[2]@[0]@);
    assert(tw[2][1] == ls@[2]@[1]@);
    let num_textures: u16 = match parse_dec(ls[2][1].as_slice()) {
        Some(v) => {
            if v > 65535 {
                return Err(JamError::MetaSyntax);
            }
            v as u16
        },
        None => return Err(JamError::MetaSyntax),
    };
    if ls[3].len() != 2 || !bytes_eq(ls[3][0].as_slice(), lit("canvas_h").as_slice()) {
        proof {
            if ls@[3]@.len() == 2 {
                assert(tw[3][0] == ls@[3]@[0]@);
            }
        }
        return Err(JamError::MetaSyntax);
    }
    assert(tw[3][0] == ls@[3]@[0]@);
    assert(tw[3][1] == ls@[3]@[1]@);
    let canvas_h: u16 = match parse_dec(ls[3][1].as_slice()) {
        Some(v) => {
            if v > 65535 {
                return Err(JamError::MetaSyntax);
            }
            v as u16
        },
        None => return Err(JamError::MetaSyntax),
    };
    if ls[n - 1].len() != 1 || ls[n - 1][0].len() != 0 {
        proof {
            if ls@[n - 1]@.len() == 1 {
                assert(tw[n - 1][0] == ls@[n - 1]@[0]@);
            }
        }
        return Err(JamError::MetaSyntax);
    }
    assert(tw[n - 1] =~= seq![Seq::<u8>::empty()]) by {
        assert(tw[n - 1][0] == ls@[n - 1]@[0]@);
        assert(ls@[n - 1]@[0]@ =~= Seq::<u8>::empty());
    }
    let groups = (n - 5) / 6;
    let mut textures: Vec<MetaFileTexture> = Vec::new();
    let mut g: usize = 0;
    while g < groups
        invariant
            tw == text_words(text@),
            tw == line_views(ls@),
            n == ls@.len(),
            groups == (n - 5) / 6,
            n >= 5,
            (n - 5) % 6 == 0,
            g <= groups,
            textures@.len() == g,
            forall|k: int| 0 <= k < g ==> #[trigger] texture_group_ok(tw, k),
            forall|k: int| 0 <= k < g ==> texture_group_describes(tw, k, texture_text(#[trigger] textures@[k])),
        decreases groups - g,
    {
        match read_texture_group(&ls, g) {
            Some(tt) => {
                textures.push(tt);
            },
            None => {
                assert(!texture_group_ok(tw, g as int));
                assert(tw.len() == n);
                return Err(JamError::MetaSyntax);
            },
        }
        g = g + 1;
    }
    let stem = vstd::slice::slice_to_vec(ls[1][1].as_slice());
    let f = JamMetaFile { stem, num_textures, canvas_h, textures };
    assert forall|k: int| 0 <= k < meta_text(f).textures.len() implies texture_group_describes(tw, k, #[trigger] meta_text(f).textures[k]) by {
        assert(meta_text(f).textures[k] == texture_text(textures@[k]));
    }
    Ok(f)
}

/// The name of the image file of texture `t` exported under `stem`: `<stem>_<t>.png`.
pub open spec fn png_name_bytes(stem: Seq<u8>, t: nat) -> Seq<u8> {
    stem + seq![95u8] + dec(t) + ascii(".png"@)
}

/// What building the metadata file of `p` reads lies within `p`: all four haze
/// palettes of every texture, at offsets that fit in a `usize`.
pub open spec fn meta_file_in_bounds(p: JamParsed) -> bool {
    let txs = p.textures@;
    &&& txs.len() <= u32::MAX
    &&& palette_offset(txs, txs.len()) <= usize::MAX
    &&& forall|t: int| 0 <= t < txs.len() ==> palette_offset(txs, t as nat)
        + 4 * (#[trigger] txs[t]).quarter_palette_size <= p.palette_data@.len()
}

/// Haze palette `k` of texture `t` of `p`.
pub open spec fn haze_palette(p: JamParsed, t: int, k: int) -> Seq<u8> {
    let off = palette_offset(p.textures@, t as nat) as int;
    let qps = p.textures@[t].quarter_palette_size as int;
    p.palette_data@.subrange(off + k * qps, off + (k + 1) * qps)
}

proof fn lemma_plain_concat(a: Seq<u8>, b: Seq<u8>)
    requires
        plain(a),
        plain(b),
    ensures
        plain(a + b),
{
    assert forall|c: u8| (c == 32u8 || c == 10u8) implies !(a + b).contains(c) by {
        if (a + b).contains(c) {
            let k = choose|k: int| 0 <= k < (a + b).len() && (a + b)[k] == c;
            if k < a.len() {
                assert(a[k] == c);
            } else {
                assert(b[k - a.len()] == c);
            }
        }
    }
}

/// The name of the image file of texture `t` exported under `stem`.
fn png_name_exec(stem: &[u8], t: u32) -> (name: Vec<u8>)
    ensures
        name@ == png_name_bytes(stem@, t as nat),
{
    proof {
        reveal_strlit(".png");
    }
    let mut name = vstd::slice::slice_to_vec(stem);
    name.push(95u8);
    push_dec(&mut name, t);
    let suffix = lit(".png");
    let mut i: usize = 0;
    let ghost pre = name@;
    while i < suffix.len()
        invariant
            i <= suffix@.len(),
            name@ == pre + suffix@.take(i as int),
        decreases suffix@.len() - i,
    {
        name.push(suffix[i]);
        assert(suffix@.take((i + 1) as int) =~= suffix@.take(i as int).push(suffix@[i as int]));
        assert(pre + suffix@.take((i + 1) as int) =~= (pre + suffix@.take(i as int)).push(suffix@[i as int]));
        i = i + 1;
    }
    assert(suffix@.take(suffix@.len() as int) =~= suffix@);
    assert(name@ =~= png_name_bytes(stem@, t as nat));
    name
}

/// The four haze palettes of texture `t` of `parsed`, whose palettes start at `off`.
fn haze_palettes_exec(parsed: &JamParsed, t: usize, off: usize) -> (pals: Vec<Vec<u8>>)
    requires
        t < parsed.textures@.len(),
        off == palette_offset(parsed.textures@, t as nat),
        off + 4 * parsed.textures@[t as int].quarter_palette_size <= parsed.palette_data@.len(),
    ensures
        pals@.len() == 4,
        forall|k: int| 0 <= k < 4 ==> #[trigger] pals@[k]@ == haze_palette(*parsed, t as int, k),
{
    let qps = parsed.textures[t].quarter_palette_size as usize;
    let pal_len = parsed.palette_data.len();
    let mut pals: Vec<Vec<u8>> = Vec::new();
    let mut k: usize = 0;
    while k < 4
        invariant
            k <= 4,
            pal_len == parsed.palette_data@.len(),
            off + 4 * qps <= pal_len,
            off == palette_offset(parsed.textures@, t as nat),
            t < parsed.textures@.len(),
            qps == parsed.textures@[t as int].quarter_palette_size,
            pals@.len() == k,
            forall|j: int| 0 <= j < k ==> #[trigger] pals@[j]@ == haze_palette(*parsed, t as int, j),
        decreases 4 - k,
    {
        assert((k + 1) * qps <= 4 * qps && k * qps <= (k + 1) * qps) by (nonlinear_arith)
            requires k < 4;
        let lo = off + k * qps;
        let hi = off + (k + 1) * qps;
        let p = vstd::slice::slice_to_vec(vstd::slice::slice_subrange(parsed.palette_data.as_slice(), lo, hi));
        pals.push(p);
        k = k + 1;
    }
    pals
}

proof fn lemma_png_name_plain(stem: Seq<u8>, t: nat)
    requires
        plain(stem),
        t < 100000,
    ensures
        plain(png_name_bytes(stem, t)),
{
    reveal_strlit(".png");
    lemma_dec_plain_word(t);
    assert(plain(seq![95u8]));
    assert(plain(ascii(".png"@)));
    lemma_plain_concat(stem, seq![95u8]);
    lemma_plain_concat(stem + seq![95u8], dec(t));
    lemma_plain_concat(stem + seq![95u8] + dec(t), ascii(".png"@));
}

/// The metadata file of `parsed` exported under `stem`: the header of the archive,
/// and every record with its image file name and its four haze palettes.
pub fn meta_file_from_parsed(stem: &[u8], parsed: &JamParsed) -> (f: JamMetaFile)
    requires
        meta_file_in_bounds(*parsed),
    ensures
        f.stem@ == stem@,
        f.num_textures == parsed.num_textures,
        f.canvas_h == parsed.canvas_h,
        f.textures@.len() == parsed.textures@.len(),
        forall|t: int| 0 <= t < parsed.textures@.len() ==> {
            let ft = #[trigger] f.textures@[t];
            &&& ft.tx == parsed.textures@[t]
            &&& ft.png_name@ == png_name_bytes(stem@, t as nat)
            &&& ft.pals@.len() == 4
            &&& forall|k: int| 0 <= k < 4 ==> #[trigger] ft.pals@[k]@ == haze_palette(*parsed, t, k)
        },
        plain(stem@) && parsed.textures@.len() <= 100000 ==> meta_text_wf(meta_text(f)),
{
    let ghost txs = parsed.textures@;
    let n = parsed.textures.len();
    let mut textures: Vec<MetaFileTexture> = Vec::new();
    let mut off: usize = 0;
    let mut t: usize = 0;
    while t < n
        invariant
            meta_file_in_bounds(*parsed),
            txs == parsed.textures@,
            n == txs.len(),
            t <= n,
            off == palette_offset(txs, t as nat),
            textures@.len() == t,
            forall|j: int| 0 <= j < t ==> {
                let ft = #[trigger] textures@[j];
                &&& ft.tx == txs[j]
                &&& ft.png_name@ == png_name_bytes(stem@, j as nat)
                &&& ft.pals@.len() == 4
                &&& forall|k: int| 0 <= k < 4 ==> #[trigger] ft.pals@[k]@ == haze_palette(*parsed, j, k)
            },
        decreases n - t,
    {
        proof {
            crate::canvas::lemma_palette_offset_monotone(txs, (t + 1) as nat, n as nat);
        }
        let tx = parsed.textures[t];
        let qps = tx.quarter_palette_size as usize;
        assert(off + 4 * qps <= parsed.palette_data@.len());
        let pals = haze_palettes_exec(parsed, t, off);
        let name = png_name_exec(stem, t as u32);
        textures.push(MetaFileTexture { tx, png_name: name, pals });
        off = off + 4 * qps;
        t = t + 1;
    }
    let f = JamMetaFile {
        stem: vstd::slice::slice_to_vec(stem),
        num_textures: parsed.num_textures,
        canvas_h: parsed.canvas_h,
        textures,
    };
    proof {
        if plain(stem@) && n <= 100000 {
            let m = meta_text(f);
            assert forall|j: int| 0 <= j < m.textures.len()
                implies plain((#[trigger] m.textures[j]).png_name) && m.textures[j].pals.len() == 4 by {
                assert(m.textures[j] == texture_text(f.textures@[j]));
                lemma_png_name_plain(stem@, j as nat);
            }
        }
    }
    f
}

/// Whether the metadata file of `parsed` can be built: `meta_file_in_bounds`.
pub fn meta_file_fits(parsed: &JamParsed) -> (b: bool)
    ensures
        b == meta_file_in_bounds(*parsed),
{
    let ghost txs = parsed.textures@;
    let n = parsed.textures.len();
    if n > u32::MAX as usize {
        return false;
    }
    let pal_len = parsed.palette_data.len();
    let mut off: usize = 0;
    let mut t: usize = 0;
    while t < n
        invariant
            txs == parsed.textures@,
            n == txs.len(),
            n <= u32::MAX,
            pal_len == parsed.palette_data@.len(),
            t <= n,
            off == palette_offset(txs, t as nat),
            forall|j: int| 0 <= j < t ==> palette_offset(txs, j as nat)
                + 4 * (#[trigger] txs[j]).quarter_palette_size <= pal_len,
        decreases n - t,
    {
        let q = parsed.textures[t].quarter_palette_size as usize;
        if off > pal_len || 4 * q > pal_len - off {
            return false;
        }
        off = off + 4 * q;
        t = t + 1;
    }
    true
}

/// Makes a `String` of `bytes` with std's `String::from_utf8`, which accepts
/// exactly the bytes that are valid UTF-8 and keeps the characters they encode.
#[verifier::external_body]
fn string_from_utf8(bytes: Vec<u8>) -> (r: Option<String>)
    ensures
        match r {
            Some(s) => valid_utf8(bytes@) && s@ == decode_utf8(bytes@),
            None => !valid_utf8(bytes@),
        },
{
    String::from_utf8(bytes).ok()
}

/// All names of the metadata file `f` are UTF-8.
pub open spec fn names_utf8(f: MetaText) -> bool {
    &&& valid_utf8(f.stem)
    &&& forall|t: int| 0 <= t < f.textures.len() ==> valid_utf8(#[trigger] f.textures[t].png_name)
}

/// The name and the textures for encoding that the metadata file `f` gives: every
/// record with its image file name and its haze-0 palette. Names that are not
/// UTF-8 are refused.
pub fn meta_textures_from_file(f: JamMetaFile) -> (r: Result<(String, Vec<MetaTexture>), JamError>)
    requires
        forall|t: int| 0 <= t < f.textures@.len() ==> (#[trigger] f.textures@[t]).pals@.len() >= 1,
    ensures
        match r {
            Ok((stem, mts)) => {
                &&& names_utf8(meta_text(f))
                &&& stem@ == decode_utf8(f.stem@)
                &&& mts@.len() == f.textures@.len()
                &&& forall|t: int| 0 <= t < f.textures@.len() ==> {
                    let ft = f.textures@[t];
                    &&& (#[trigger] mts@[t]).tx == ft.tx
                    &&& mts@[t].png_name@ == decode_utf8(ft.png_name@)
                    &&& mts@[t].palette@ == ft.pals@[0]@
                }
            },
            Err(e) => e == JamError::NameNotUtf8 && !names_utf8(meta_text(f)),
        },
{
    let ghost m = meta_text(f);
    let ghost fts = f.textures@;
    assert(m.textures.len() == fts.len());
    assert forall|k: int| 0 <= k < fts.len() implies #[trigger] m.textures[k] == texture_text(fts[k]) by {}
    let stem = match string_from_utf8(f.stem) {
        Some(s) => s,
        None => return Err(JamError::NameNotUtf8),
    };
    let mut mts: Vec<MetaTexture> = Vec::new();
    let mut textures = f.textures;
    let n = textures.len();
    let mut t: usize = 0;
    while t < n
        invariant
            fts == textures@,
            m == meta_text(f),
            m.textures.len() == fts.len(),
            forall|k: int| 0 <= k < fts.len() ==> #[trigger] m.textures[k] == texture_text(fts[k]),
            valid_utf8(m.stem),
            n == fts.len(),
            forall|k: int| 0 <= k < fts.len() ==> (#[trigger] fts[k]).pals@.len() >= 1,
            t <= n,
            mts@.len() == t,
            forall|k: int| 0 <= k < t ==> valid_utf8(#[trigger] fts[k].png_name@),
            forall|k: int| 0 <= k < t ==> {
                let ft = fts[k];
                &&& (#[trigger] mts@[k]).tx == ft.tx
                &&& mts@[k].png_name@ == decode_utf8(ft.png_name@)
                &&& mts@[k].palette@ == ft.pals@[0]@
            },
        decreases n - t,
    {
        let ft = &textures[t];
        let name_bytes = vstd::slice::slice_to_vec(ft.png_name.as_slice());
        let png_name = match string_from_utf8(name_bytes) {
            Some(s) => s,
            None => {
                proof {
                    assert(m.textures[t as int] == texture_text(fts[t as int]));
                    assert(!valid_utf8(m.textures[t as int].png_name));
                }
                return Err(JamError::NameNotUtf8);
            },
        };
        let palette = vstd::slice::slice_to_vec(ft.pals[0].as_slice());
        mts.push(MetaTexture { tx: ft.tx, png_name, palette });
        t = t + 1;
    }
    proof {
        assert forall|k: int| 0 <= k < m.textures.len() implies valid_utf8(#[trigger] m.textures[k].png_name) by {
            assert(m.textures[k] == texture_text(fts[k]));
        }
    }
    Ok((stem, mts))
}

} // verus!
