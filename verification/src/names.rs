//! The names given to exported image files.

use vstd::prelude::*;
use vstd::string::{StrSliceExecFns, StringExecFns};

verus! {

/// The decimal digit for `d` (0 to 9).
pub open spec fn digit_char(d: nat) -> char {
    (48 + d) as char
}

/// The decimal representation of `n`, without leading zeros.
pub open spec fn decimal(n: nat) -> Seq<char>
    decreases n,
{
    if n < 10 {
        seq![digit_char(n)]
    } else {
        decimal(n / 10).push(digit_char(n % 10))
    }
}

/// The name of the image file of texture `index`: `<stem>_<index>.png`.
pub open spec fn png_file_name_spec(stem: Seq<char>, index: nat) -> Seq<char> {
    stem + seq!['_'] + decimal(index) + seq!['.', 'p', 'n', 'g']
}

/// Appends the decimal digits of `n` to `s`.
fn push_decimal(s: &mut String, n: usize)
    ensures
        final(s)@ == old(s)@ + decimal(n as nat),
    decreases n,
{
    if n >= 10 {
        push_decimal(s, n / 10);
    }
    let digits = "0123456789";
    let d = n % 10;
    proof {
        reveal_strlit("0123456789");
        assert(vstd::string::is_ascii(digits));
    }
    let c = digits.substring_ascii(d, d + 1);
    proof {
        assert(digits@[d as int] == digit_char(d as nat)) by {
            assert(d == 0 || d == 1 || d == 2 || d == 3 || d == 4 || d == 5 || d == 6 || d == 7 || d == 8 || d == 9);
        }
        assert(c@ =~= seq![digit_char(d as nat)]);
    }
    s.append(c);
    proof {
        if n >= 10 {
            assert(decimal(n as nat) == decimal((n / 10) as nat).push(digit_char((n % 10) as nat)));
        }
    }
    assert(final(s)@ =~= old(s)@ + decimal(n as nat));
}

/// The name of the image file of texture `index` exported under `stem`.
pub fn png_file_name(stem: &str, index: usize) -> (name: String)
    ensures
        name@ == png_file_name_spec(stem@, index as nat),
{
    let mut name = stem.to_owned();
    name.append("_");
    push_decimal(&mut name, index);
    name.append(".png");
    proof {
        reveal_strlit("_");
        reveal_strlit(".png");
        assert("_"@ =~= seq!['_']);
        assert(".png"@ =~= seq!['.', 'p', 'n', 'g']);
    }
    name
}

} // verus!
