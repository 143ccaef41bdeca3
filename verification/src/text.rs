//! Bytes of a plain-text file: words joined by a separator, and decimal numbers.

use vstd::prelude::*;
use crate::palettize::image_views;

verus! {

/// The words `ws` with `sep` between neighbours.
pub open spec fn join(ws: Seq<Seq<u8>>, sep: u8) -> Seq<u8>
    decreases ws.len(),
{
    if ws.len() == 0 {
        Seq::empty()
    } else if ws.len() == 1 {
        ws[0]
    } else {
        join(ws.drop_last(), sep).push(sep) + ws.last()
    }
}

/// No word of `ws` holds `sep`.
pub open spec fn sep_free(ws: Seq<Seq<u8>>, sep: u8) -> bool {
    forall|i: int| 0 <= i < ws.len() ==> !(#[trigger] ws[i]).contains(sep)
}

/// `ws` is `s` cut at every `sep`.
pub open spec fn is_split(s: Seq<u8>, sep: u8, ws: Seq<Seq<u8>>) -> bool {
    &&& ws.len() >= 1
    &&& sep_free(ws, sep)
    &&& join(ws, sep) == s
}

/// `s` cut at every `sep` (one word more than `s` has separators).
pub open spec fn split(s: Seq<u8>, sep: u8) -> Seq<Seq<u8>> {
    choose|ws: Seq<Seq<u8>>| is_split(s, sep, ws)
}

proof fn lemma_join_sep_at(ws: Seq<Seq<u8>>, sep: u8)
    requires
        ws.len() >= 2,
    ensures
        join(ws, sep)[join(ws.drop_last(), sep).len() as int] == sep,
        join(ws, sep).len() == join(ws.drop_last(), sep).len() + 1 + ws.last().len(),
{
}

/// Cutting at a separator is unique: two lists of words free of `sep` that join
/// to the same bytes are the same.
pub proof fn lemma_join_injective(a: Seq<Seq<u8>>, b: Seq<Seq<u8>>, sep: u8)
    requires
        a.len() >= 1,
        b.len() >= 1,
        sep_free(a, sep),
        sep_free(b, sep),
        join(a, sep) == join(b, sep),
    ensures
        a == b,
    decreases a.len() + b.len(),
{
    let s = join(a, sep);
    if a.len() == 1 && b.len() == 1 {
        assert(a =~= b);
    } else if a.len() == 1 {
        lemma_join_sep_at(b, sep);
        let k = join(b.drop_last(), sep).len() as int;
        assert(a[0][k] == sep);
        assert(a[0].contains(sep));
    } else if b.len() == 1 {
        lemma_join_sep_at(a, sep);
        let k = join(a.drop_last(), sep).len() as int;
        assert(b[0][k] == sep);
        assert(b[0].contains(sep));
    } else {
        lemma_join_sep_at(a, sep);
        lemma_join_sep_at(b, sep);
        let la = a.last();
        let lb = b.last();
        let pa = join(a.drop_last(), sep);
        let pb = join(b.drop_last(), sep);
        assert(!la.contains(sep));
        assert(!lb.contains(sep));
        if la.len() < lb.len() {
            let k = pa.len() as int;
            assert(s[k] == sep);
            assert(lb[k - pb.len() - 1] == s[k]);
            assert(lb.contains(sep));
        } else if lb.len() < la.len() {
            let k = pb.len() as int;
            assert(s[k] == sep);
            assert(la[k - pa.len() - 1] == s[k]);
            assert(la.contains(sep));
        }
        assert(la =~= lb) by {
            assert forall|i: int| 0 <= i < la.len() implies la[i] == lb[i] by {
                assert(la[i] == s[pa.len() + 1 + i]);
                assert(lb[i] == s[pb.len() + 1 + i]);
            }
        }
        assert(pa =~= pb) by {
            assert forall|i: int| 0 <= i < pa.len() implies pa[i] == pb[i] by {
                assert(pa[i] == s[i]);
                assert(pb[i] == s[i]);
            }
        }
        assert(sep_free(a.drop_last(), sep)) by {
            assert forall|i: int| 0 <= i < a.drop_last().len() implies !(#[trigger] a.drop_last()[i]).contains(sep) by {
                assert(a.drop_last()[i] == a[i]);
            }
        }
        assert(sep_free(b.drop_last(), sep)) by {
            assert forall|i: int| 0 <= i < b.drop_last().len() implies !(#[trigger] b.drop_last()[i]).contains(sep) by {
                assert(b.drop_last()[i] == b[i]);
            }
        }
        lemma_join_injective(a.drop_last(), b.drop_last(), sep);
        assert(a =~= a.drop_last().push(la));
        assert(b =~= b.drop_last().push(lb));
    }
}

/// Words free of `sep`, at least one, are what cutting their joined bytes gives.
pub proof fn lemma_split_of_join(ws: Seq<Seq<u8>>, sep: u8)
    requires
        ws.len() >= 1,
        sep_free(ws, sep),
    ensures
        split(join(ws, sep), sep) == ws,
{
    let s = join(ws, sep);
    assert(is_split(s, sep, ws));
    let c = split(s, sep);
    lemma_join_injective(c, ws, sep);
}

proof fn lemma_join_push_byte(ws: Seq<Seq<u8>>, w: Seq<u8>, c: u8, sep: u8)
    ensures
        join(ws.push(w.push(c)), sep) == join(ws.push(w), sep).push(c),
{
    if ws.len() == 0 {
        assert(ws.push(w.push(c)) =~= seq![w.push(c)]);
        assert(ws.push(w) =~= seq![w]);
    } else {
        assert(ws.push(w.push(c)).drop_last() =~= ws);
        assert(ws.push(w).drop_last() =~= ws);
        assert(join(ws, sep).push(sep) + w.push(c) =~= (join(ws, sep).push(sep) + w).push(c));
    }
}

proof fn lemma_join_push_word(ws: Seq<Seq<u8>>, sep: u8)
    requires
        ws.len() >= 1,
    ensures
        join(ws.push(Seq::empty()), sep) == join(ws, sep).push(sep),
{
    assert(ws.push(Seq::<u8>::empty()).drop_last() =~= ws);
    assert(join(ws, sep).push(sep) + Seq::<u8>::empty() =~= join(ws, sep).push(sep));
}

/// Cuts `s` at every `sep`.
pub fn split_bytes(s: &[u8], sep: u8) -> (ws: Vec<Vec<u8>>)
    ensures
        image_views(ws@) == split(s@, sep),
{
    let mut words: Vec<Vec<u8>> = Vec::new();
    let mut cur: Vec<u8> = Vec::new();
    let mut i: usize = 0;
    while i < s.len()
        invariant
            i <= s@.len(),
            join(image_views(words@).push(cur@), sep) == s@.take(i as int),
            sep_free(image_views(words@).push(cur@), sep),
        decreases s@.len() - i,
    {
        let c = s[i];
        let ghost v = image_views(words@);
        if c == sep {
            proof {
                lemma_join_push_word(v.push(cur@), sep);
            }
            words.push(cur);
            cur = Vec::new();
            assert(image_views(words@) =~= v.push(image_views(words@).last()));
            assert(image_views(words@).push(cur@) =~= v.push(image_views(words@).last()).push(Seq::empty()));
        } else {
            let ghost old_cur = cur@;
            proof {
                lemma_join_push_byte(v, cur@, c, sep);
                assert(!old_cur.contains(sep)) by {
                    assert(v.push(old_cur)[v.len() as int] == old_cur);
                }
            }
            cur.push(c);
            assert(image_views(words@) == v);
            assert(cur@ == old_cur.push(c));
            assert(!cur@.contains(sep)) by {
                if cur@.contains(sep) {
                    let k = choose|k: int| 0 <= k < cur@.len() && cur@[k] == sep;
                    if k < old_cur.len() {
                        assert(old_cur[k] == sep);
                    }
                }
            }
            assert(sep_free(image_views(words@).push(cur@), sep)) by {
                assert forall|j: int| 0 <= j < v.len() + 1 implies !(#[trigger] image_views(words@).push(cur@)[j]).contains(sep) by {
                    if j < v.len() {
                        assert(v.push(old_cur)[j] == v[j]);
                        assert(image_views(words@).push(cur@)[j] == v[j]);
                    } else {
                        assert(image_views(words@).push(cur@)[j] == cur@);
                    }
                }
            }
        }
        assert(s@.take((i + 1) as int) =~= s@.take(i as int).push(c));
        i = i + 1;
    }
    let ghost v = image_views(words@);
    words.push(cur);
    assert(image_views(words@) =~= v.push(image_views(words@).last()));
    assert(s@.take(s@.len() as int) =~= s@);
    proof {
        lemma_split_of_join(image_views(words@), sep);
    }
    words
}

/// Appends `ws` joined with `sep` to `out`.
pub fn push_joined(out: &mut Vec<u8>, ws: &Vec<Vec<u8>>, sep: u8)
    ensures
        final(out)@ == old(out)@ + join(image_views(ws@), sep),
{
    let ghost start = out@;
    let mut i: usize = 0;
    while i < ws.len()
        invariant
            out@ == start + join(image_views(ws@).take(i as int), sep),
            i <= ws@.len(),
        decreases ws@.len() - i,
    {
        let ghost pre = image_views(ws@).take(i as int);
        if i > 0 {
            out.push(sep);
        }
        let w = &ws[i];
        let mut k: usize = 0;
        let ghost mid = out@;
        while k < w.len()
            invariant
                out@ == mid + w@.take(k as int),
                k <= w@.len(),
            decreases w@.len() - k,
        {
            out.push(w[k]);
            assert(w@.take((k + 1) as int) =~= w@.take(k as int).push(w[k as int]));
            assert(mid + w@.take((k + 1) as int) =~= (mid + w@.take(k as int)).push(w[k as int]));
            k = k + 1;
        }
        assert(w@.take(w@.len() as int) =~= w@);
        let ghost next = image_views(ws@).take((i + 1) as int);
        assert(next.drop_last() =~= pre);
        assert(next.last() == w@);
        if i == 0 {
            assert(next =~= seq![w@]);
            assert(start + w@ =~= start + join(next, sep));
        } else {
            assert(join(next, sep) == join(pre, sep).push(sep) + w@);
            assert(start + join(pre, sep).push(sep) + w@ =~= start + join(next, sep));
        }
        i = i + 1;
    }
    assert(image_views(ws@).take(ws@.len() as int) =~= image_views(ws@));
}

/// The decimal digits of `n`, without leading zeros, as ASCII bytes.
pub open spec fn dec(n: nat) -> Seq<u8>
    decreases n,
{
    if n < 10 {
        seq![(48 + n) as u8]
    } else {
        dec(n / 10).push((48 + n % 10) as u8)
    }
}

/// `b` is an ASCII decimal digit.
pub open spec fn is_digit(b: u8) -> bool {
    48 <= b <= 57
}

/// The number that the decimal digits `d` write.
pub open spec fn digits_value(d: Seq<u8>) -> nat
    decreases d.len(),
{
    if d.len() == 0 {
        0
    } else {
        digits_value(d.drop_last()) * 10 + (d.last() - 48) as nat
    }
}

/// The number that the word `w` writes: one to five decimal digits.
pub open spec fn parse_num(w: Seq<u8>) -> Option<nat> {
    if 1 <= w.len() <= 5 && forall|i: int| 0 <= i < w.len() ==> is_digit(#[trigger] w[i]) {
        Some(digits_value(w))
    } else {
        None
    }
}

/// The digits of a number below 100000 read back as that number.
pub proof fn lemma_dec(n: nat)
    requires
        n < 100000,
    ensures
        parse_num(dec(n)) == Some(n),
        n < 10 ==> dec(n).len() == 1,
        n < 100 ==> dec(n).len() <= 2,
        n < 1000 ==> dec(n).len() <= 3,
        n < 10000 ==> dec(n).len() <= 4,
        forall|i: int| 0 <= i < dec(n).len() ==> is_digit(#[trigger] dec(n)[i]),
    decreases n,
{
    if n >= 10 {
        lemma_dec(n / 10);
        let d = dec(n);
        assert(d.drop_last() =~= dec(n / 10));
        assert(n == (n / 10) * 10 + n % 10);
        assert forall|i: int| 0 <= i < d.len() implies is_digit(#[trigger] d[i]) by {
            if i < d.len() - 1 {
                assert(d[i] == dec(n / 10)[i]);
            }
        }
    } else {
        assert(digits_value(dec(n).drop_last()) == 0) by {
            assert(dec(n).drop_last().len() == 0);
        }
    }
}

/// The digits of a number never hold a space or a line end.
pub proof fn lemma_dec_plain(n: nat, c: u8)
    requires
        n < 100000,
        !is_digit(c),
    ensures
        !dec(n).contains(c),
{
    lemma_dec(n);
}

/// Appends the decimal digits of `n` to `out`.
pub fn push_dec(out: &mut Vec<u8>, n: u32)
    ensures
        final(out)@ == old(out)@ + dec(n as nat),
    decreases n,
{
    if n >= 10 {
        push_dec(out, n / 10);
    }
    out.push(48 + (n % 10) as u8);
    proof {
        if n >= 10 {
            assert(dec(n as nat) == dec((n / 10) as nat).push((48 + n % 10) as u8));
        }
    }
    assert(final(out)@ =~= old(out)@ + dec(n as nat));
}

/// The decimal digits of `n`.
pub fn dec_bytes(n: u32) -> (d: Vec<u8>)
    ensures
        d@ == dec(n as nat),
{
    let mut d: Vec<u8> = Vec::new();
    push_dec(&mut d, n);
    assert(d@ =~= dec(n as nat));
    d
}

/// Reads the number that `w` writes in one to five decimal digits.
pub fn parse_dec(w: &[u8]) -> (r: Option<u32>)
    ensures
        match r {
            Some(v) => parse_num(w@) == Some(v as nat),
            None => parse_num(w@) is None,
        },
{
    if w.len() == 0 || w.len() > 5 {
        return None;
    }
    let mut v: u32 = 0;
    let mut i: usize = 0;
    while i < w.len()
        invariant
            1 <= w@.len() <= 5,
            i <= w@.len(),
            forall|k: int| 0 <= k < i ==> is_digit(#[trigger] w@[k]),
            v == digits_value(w@.take(i as int)),
            v < 100000,
            i == 0 ==> v == 0,
            i <= 1 ==> v < 10,
            i <= 2 ==> v < 100,
            i <= 3 ==> v < 1000,
            i <= 4 ==> v < 10000,
        decreases w@.len() - i,
    {
        let c = w[i];
        if c < 48 || c > 57 {
            return None;
        }
        assert(w@.take((i + 1) as int).drop_last() =~= w@.take(i as int));
        v = v * 10 + (c - 48) as u32;
        i = i + 1;
    }
    assert(w@.take(w@.len() as int) =~= w@);
    Some(v)
}

} // verus!
