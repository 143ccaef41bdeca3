//! Rebuilding local palettes from images that hold global palette indices.

use vstd::prelude::*;
use vstd::set_lib::{lemma_int_range, lemma_len_subset, set_int_range};
use crate::types::{JamError, JamMeta, JamTexture, MetaTexture};

verus! {

/// The distinct values of `img`, in the order of their first occurrence.
pub open spec fn distinct_colors(img: Seq<u8>) -> Seq<u8>
    decreases img.len(),
{
    if img.len() == 0 {
        Seq::empty()
    } else {
        let d = distinct_colors(img.drop_last());
        if d.contains(img.last()) {
            d
        } else {
            d.push(img.last())
        }
    }
}

/// `i` is the position of the first occurrence of `g` in `pal`.
pub open spec fn is_first_index(pal: Seq<u8>, g: u8, i: int) -> bool {
    &&& 0 <= i < pal.len()
    &&& pal[i] == g
    &&& forall|j: int| 0 <= j < i ==> pal[j] != g
}

/// Position of the first occurrence of `g` in `pal`, or 0 when `g` does not occur.
pub open spec fn first_index(pal: Seq<u8>, g: u8) -> int {
    if exists|i: int| is_first_index(pal, g, i) {
        choose|i: int| is_first_index(pal, g, i)
    } else {
        0
    }
}

/// `img` with every pixel replaced by the position of its value in `pal`.
pub open spec fn local_image(pal: Seq<u8>, img: Seq<u8>) -> Seq<u8> {
    Seq::new(img.len(), |i: int| first_index(pal, img[i]) as u8)
}

/// The haze palette size after repalettization: the old size, or the number
/// of distinct colours of the image when that is larger.
pub open spec fn repalettized_qps(qps: u16, img: Seq<u8>) -> nat {
    let d = distinct_colors(img).len();
    if d > qps {
        d
    } else {
        qps as nat
    }
}

/// The rebuilt palette: the distinct colours of the image, padded with zeros to `qps` entries.
pub open spec fn local_palette(img: Seq<u8>, qps: nat) -> Seq<u8> {
    let d = distinct_colors(img);
    d + Seq::new((qps - d.len()) as nat, |i: int| 0u8)
}

/// The contents of a list of images.
pub open spec fn image_views(imgs: Seq<Vec<u8>>) -> Seq<Seq<u8>> {
    imgs.map_values(|v: Vec<u8>| v@)
}

/// `a` and `b` agree on every field but the haze palette size.
pub open spec fn same_record_except_qps(a: JamTexture, b: JamTexture) -> bool {
    &&& a.left == b.left
    &&& a.top == b.top
    &&& a.unk02 == b.unk02
    &&& a.width == b.width
    &&& a.height == b.height
    &&& a.unk08 == b.unk08
    &&& a.unk0a == b.unk0a
    &&& a.image_ptr == b.image_ptr
    &&& a.unk0e == b.unk0e
    &&& a.texture_id == b.texture_id
    &&& a.transparent == b.transparent
    &&& a.unk16 == b.unk16
    &&& a.unk17 == b.unk17
    &&& a.unk18 == b.unk18
}

/// `out` is the metadata texture `mt` with its palette rebuilt from the global image `img`.
pub open spec fn repalettized_texture(mt: MetaTexture, img: Seq<u8>, out: MetaTexture) -> bool {
    let q = repalettized_qps(mt.tx.quarter_palette_size, img);
    &&& out.tx.quarter_palette_size == q
    &&& same_record_except_qps(out.tx, mt.tx)
    &&& out.png_name@ == mt.png_name@
    &&& out.palette@ == local_palette(img, q)
}

/// `out` is the metadata `m` with every palette rebuilt from the matching global image.
pub open spec fn repalettized(m: JamMeta, imgs: Seq<Seq<u8>>, out: JamMeta) -> bool {
    &&& out.stem@ == m.stem@
    &&& out.num_textures == m.num_textures
    &&& out.canvas_h == m.canvas_h
    &&& out.textures@.len() == m.textures@.len()
    &&& forall|t: int| 0 <= t < m.textures@.len()
        ==> repalettized_texture(m.textures@[t], imgs[t], #[trigger] out.textures@[t])
}

/// The distinct colours of an image occur in it, each once, and every pixel is one of them.
pub proof fn lemma_distinct_colors(img: Seq<u8>)
    ensures
        distinct_colors(img).no_duplicates(),
        forall|i: int| 0 <= i < img.len() ==> distinct_colors(img).contains(#[trigger] img[i]),
        forall|x: u8| distinct_colors(img).contains(x) ==> img.contains(x),
    decreases img.len(),
{
    if img.len() > 0 {
        let rest = img.drop_last();
        let d = distinct_colors(rest);
        let l = img.last();
        lemma_distinct_colors(rest);
        assert forall|x: u8| d.contains(x) implies distinct_colors(img).contains(x) by {
            let k = choose|k: int| 0 <= k < d.len() && d[k] == x;
            assert(distinct_colors(img)[k] == x);
        }
        assert(distinct_colors(img).contains(l)) by {
            if !d.contains(l) {
                assert(distinct_colors(img)[d.len() as int] == l);
            }
        }
        assert forall|i: int| 0 <= i < img.len() implies distinct_colors(img).contains(#[trigger] img[i]) by {
            if i < img.len() - 1 {
                assert(rest[i] == img[i]);
                assert(d.contains(rest[i]));
            }
        }
        assert forall|x: u8| distinct_colors(img).contains(x) implies img.contains(x) by {
            if d.contains(x) {
                assert(rest.contains(x));
                let j = choose|j: int| 0 <= j < rest.len() && rest[j] == x;
                assert(img[j] == x);
            } else {
                let k = choose|k: int| 0 <= k < distinct_colors(img).len() && distinct_colors(img)[k] == x;
                if k < d.len() {
                    assert(d[k] == x);
                }
                assert(img[img.len() - 1] == x);
            }
        }
        assert(distinct_colors(img).no_duplicates()) by {
            if !d.contains(l) {
                assert forall|i: int, j: int| 0 <= i < d.len() + 1 && 0 <= j < d.len() + 1 && i != j
                    implies distinct_colors(img)[i] != distinct_colors(img)[j] by {
                    if i == d.len() {
                        assert(d[j] != l);
                    } else if j == d.len() {
                        assert(d[i] != l);
                    }
                }
            }
        }
    }
}

/// An image never has more than 256 distinct colours.
pub proof fn lemma_distinct_colors_at_most_256(img: Seq<u8>)
    ensures
        distinct_colors(img).len() <= 256,
{
    let d = distinct_colors(img);
    lemma_distinct_colors(img);
    let di = d.map_values(|x: u8| x as int);
    assert(di.no_duplicates()) by {
        assert forall|i: int, j: int| 0 <= i < di.len() && 0 <= j < di.len() && i != j
            implies di[i] != di[j] by {
            assert(d[i] != d[j]);
        }
    }
    di.unique_seq_to_set();
    lemma_int_range(0, 256);
    assert(di.to_set().subset_of(set_int_range(0, 256)));
    lemma_len_subset(di.to_set(), set_int_range(0, 256));
}

/// `first_index` names the position that `is_first_index` describes.
pub proof fn lemma_first_index(pal: Seq<u8>, g: u8, i: int)
    requires
        is_first_index(pal, g, i),
    ensures
        first_index(pal, g) == i,
{
    let k = first_index(pal, g);
    assert(is_first_index(pal, g, k));
    if k < i {
        assert(pal[k] != g);
    }
    if i < k {
        assert(pal[i] != g);
    }
}

/// In a rebuilt palette, every pixel of the image is found among the distinct
/// colours, and the entry found holds the pixel's value.
pub proof fn lemma_local_pixel(img: Seq<u8>, qps: nat, i: int)
    requires
        distinct_colors(img).len() <= qps,
        0 <= i < img.len(),
    ensures
        0 <= first_index(local_palette(img, qps), img[i]) < distinct_colors(img).len(),
        local_palette(img, qps)[first_index(local_palette(img, qps), img[i])] == img[i],
{
    let d = distinct_colors(img);
    let pal = local_palette(img, qps);
    lemma_distinct_colors(img);
    assert(d.contains(img[i]));
    let k = choose|k: int| 0 <= k < d.len() && d[k] == img[i];
    let f = choose|f: int| 0 <= f <= k && d[f] == img[i] && forall|j: int| 0 <= j < f ==> d[j] != img[i];
    assert(exists|f: int| 0 <= f <= k && d[f] == img[i] && forall|j: int| 0 <= j < f ==> d[j] != img[i]) by {
        lemma_min_occurrence(d, img[i], k);
    }
    assert(is_first_index(pal, img[i], f));
    lemma_first_index(pal, img[i], f);
}

pub(crate) proof fn lemma_min_occurrence(d: Seq<u8>, g: u8, k: int)
    requires
        0 <= k < d.len(),
        d[k] == g,
    ensures
        exists|f: int| 0 <= f <= k && d[f] == g && forall|j: int| 0 <= j < f ==> d[j] != g,
    decreases k,
{
    if exists|j: int| 0 <= j < k && d[j] == g {
        let j = choose|j: int| 0 <= j < k && d[j] == g;
        lemma_min_occurrence(d, g, j);
    } else {
        assert(forall|j: int| 0 <= j < k ==> d[j] != g);
    }
}

/// Repalettization keeps the image: mapping each local index back through the
/// rebuilt palette (as `local_to_global_indices` does) gives every global index back,
/// whatever haze palette size at least the number of distinct colours is chosen.
pub proof fn lemma_repalettized_image_maps_back(img: Seq<u8>, qps: nat)
    requires
        distinct_colors(img).len() <= qps,
    ensures
        Seq::new(img.len(), |i: int| crate::canvas::local_to_global_pixel(
            local_image(local_palette(img, qps), img)[i], local_palette(img, qps), qps)) == img,
{
    let pal = local_palette(img, qps);
    lemma_distinct_colors_at_most_256(img);
    assert forall|i: int| 0 <= i < img.len() implies #[trigger] crate::canvas::local_to_global_pixel(
        local_image(pal, img)[i], pal, qps) == img[i] by {
        lemma_local_pixel(img, qps, i);
    }
    assert(Seq::new(img.len(), |i: int| crate::canvas::local_to_global_pixel(local_image(pal, img)[i], pal, qps))
        =~= img);
}

/// Whether `g` is one of the values in `v`.
fn contains_color(v: &Vec<u8>, g: u8) -> (r: bool)
    ensures
        r == v@.contains(g),
{
    let mut i: usize = 0;
    while i < v.len()
        invariant
            i <= v@.len(),
            forall|j: int| 0 <= j < i ==> v@[j] != g,
        decreases v@.len() - i,
    {
        if v[i] == g {
            return true;
        }
        i = i + 1;
    }
    false
}

/// The distinct values of `img` in order of first occurrence.
pub(crate) fn collect_distinct_colors(img: &Vec<u8>) -> (d: Vec<u8>)
    ensures
        d@ == distinct_colors(img@),
{
    let mut d: Vec<u8> = Vec::new();
    let mut i: usize = 0;
    while i < img.len()
        invariant
            i <= img@.len(),
            d@ == distinct_colors(img@.take(i as int)),
        decreases img@.len() - i,
    {
        let g = img[i];
        proof {
            assert(img@.take(i + 1).drop_last() =~= img@.take(i as int));
            assert(img@.take(i + 1).last() == g);
        }
        if !contains_color(&d, g) {
            d.push(g);
        }
        i = i + 1;
    }
    assert(img@.take(img@.len() as int) =~= img@);
    d
}

/// The position of the first occurrence of `g` in `pal`.
pub(crate) fn first_position(pal: &[u8], g: u8) -> (r: Option<usize>)
    ensures
        match r {
            Some(i) => is_first_index(pal@, g, i as int),
            None => !pal@.contains(g),
        },
{
    let mut i: usize = 0;
    while i < pal.len()
        invariant
            i <= pal@.len(),
            forall|j: int| 0 <= j < i ==> pal@[j] != g,
        decreases pal@.len() - i,
    {
        if pal[i] == g {
            return Some(i);
        }
        i = i + 1;
    }
    None
}

/// Maps global-indexed images to local-indexed ones and rebuilds the local palettes:
/// each palette becomes the distinct colours of its image, padded with zeros to the
/// haze palette size, which grows when the image has more colours than it.
pub(crate) fn repalettize_textures(
    meta_in: &JamMeta,
    texture_images_global: &[Vec<u8>],
) -> (res: Result<(JamMeta, Vec<Vec<u8>>), JamError>)
    ensures
        match res {
            Ok((m, locals)) => {
                &&& meta_in.textures@.len() == texture_images_global@.len()
                &&& repalettized(*meta_in, image_views(texture_images_global@), m)
                &&& locals@.len() == m.textures@.len()
                &&& forall|t: int| 0 <= t < locals@.len() ==> #[trigger] locals@[t]@
                    == local_image(m.textures@[t].palette@, texture_images_global@[t]@)
            },
            Err(e) => meta_in.textures@.len() != texture_images_global@.len()
                && e == JamError::TextureCountMismatch,
        },
{
    if meta_in.textures.len() != texture_images_global.len() {
        return Err(JamError::TextureCountMismatch);
    }
    let n = meta_in.textures.len();
    let ghost imgs = image_views(texture_images_global@);
    let mut new_images: Vec<Vec<u8>> = Vec::with_capacity(n);
    let mut new_textures: Vec<MetaTexture> = Vec::with_capacity(n);
    let mut t: usize = 0;
    while t < n
        invariant
            n == meta_in.textures@.len(),
            n == texture_images_global@.len(),
            imgs == image_views(texture_images_global@),
            t <= n,
            new_images@.len() == t,
            new_textures@.len() == t,
            forall|k: int| 0 <= k < t ==> repalettized_texture(meta_in.textures@[k], imgs[k],
                #[trigger] new_textures@[k]),
            forall|k: int| 0 <= k < t ==> #[trigger] new_images@[k]@
                == local_image(new_textures@[k].palette@, texture_images_global@[k]@),
        decreases n - t,
    {
        let mt = &meta_in.textures[t];
        let img_global = &texture_images_global[t];
        let ghost img = img_global@;
        assert(imgs[t as int] == img);
        let unique_colors = collect_distinct_colors(img_global);
        proof {
            lemma_distinct_colors_at_most_256(img);
        }
        let mut tx = mt.tx;
        let mut qps = tx.quarter_palette_size as usize;
        if unique_colors.len() > qps {
            qps = unique_colors.len();
            if qps > 256 {
                return Err(JamError::TooManyColors { texture: t, count: qps });
            }
            tx.quarter_palette_size = qps as u16;
        }
        assert(qps == repalettized_qps(mt.tx.quarter_palette_size, img));

        let mut local_pal = unique_colors;
        while local_pal.len() < qps
            invariant
                distinct_colors(img).len() <= qps,
                distinct_colors(img).len() <= local_pal@.len() <= qps,
                local_pal@ =~= local_palette(img, local_pal@.len() as nat),
            decreases qps - local_pal@.len(),
        {
            local_pal.push(0);
        }
        if local_pal.len() > qps {
            local_pal.truncate(qps);
        }
        assert(local_pal@ == local_palette(img, qps as nat));

        let mut img_local: Vec<u8> = Vec::with_capacity(img_global.len());
        let mut i: usize = 0;
        while i < img_global.len()
            invariant
                img == img_global@,
                i <= img.len(),
                img_local@ =~= local_image(local_pal@, img).take(i as int),
            decreases img.len() - i,
        {
            let g = img_global[i];
            let local_idx: usize = match first_position(local_pal.as_slice(), g) {
                Some(k) => {
                    proof {
                        lemma_first_index(local_pal@, g, k as int);
                    }
                    k
                },
                None => 0,
            };
            img_local.push(local_idx as u8);
            i = i + 1;
        }
        assert(img_local@ =~= local_image(local_pal@, img));
        new_images.push(img_local);
        new_textures.push(MetaTexture { tx, png_name: mt.png_name.clone(), palette: local_pal });
        t = t + 1;
    }
    let meta_out = JamMeta {
        stem: meta_in.stem.clone(),
        num_textures: meta_in.num_textures,
        canvas_h: meta_in.canvas_h,
        textures: new_textures,
    };
    Ok((meta_out, new_images))
}

} // verus!
