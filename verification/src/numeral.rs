//! Decimal numerals: what a digit string denotes, the canonical numeral of a
//! number, and an executable reader for unsigned decimal tokens.

use vstd::prelude::*;

verus! {

use vstd::string::StrSliceExecFns;
use vstd::string::StringExecFns;

/// Whether `c` is a decimal digit `'0'` through `'9'`.
pub open spec fn is_digit(c: char) -> bool {
    48 <= c as u32 && c as u32 <= 57
}

/// The numeric value of a digit character.
pub open spec fn digit_val(c: char) -> nat
    recommends
        is_digit(c),
{
    (c as u32 - 48) as nat
}

/// Whether every character of `s` is a decimal digit.
pub open spec fn all_digits(s: Seq<char>) -> bool {
    forall|i: int| 0 <= i < s.len() ==> is_digit(#[trigger] s[i])
}

/// The number denoted by the digit string `s` (most significant digit first).
pub open spec fn digits_val(s: Seq<char>) -> nat
    recommends
        all_digits(s),
    decreases s.len(),
{
    if s.len() == 0 {
        0
    } else {
        digits_val(s.drop_last()) * 10 + digit_val(s.last())
    }
}

/// The digit character for a value below ten.
pub open spec fn digit_char(d: nat) -> char
    recommends
        d < 10,
{
    if d == 0 {
        '0'
    } else if d == 1 {
        '1'
    } else if d == 2 {
        '2'
    } else if d == 3 {
        '3'
    } else if d == 4 {
        '4'
    } else if d == 5 {
        '5'
    } else if d == 6 {
        '6'
    } else if d == 7 {
        '7'
    } else if d == 8 {
        '8'
    } else {
        '9'
    }
}

/// The canonical decimal numeral of `n`: no sign, no leading zero
/// (except for `n == 0`, which is written `"0"`).
pub open spec fn dec_str(n: nat) -> Seq<char>
    decreases n,
{
    if n < 10 {
        seq![digit_char(n)]
    } else {
        dec_str(n / 10).push(digit_char(n % 10))
    }
}

/// The canonical numeral of `n` consists of digits and denotes `n`.
pub proof fn lemma_dec_str_val(n: nat)
    ensures
        dec_str(n).len() >= 1,
        all_digits(dec_str(n)),
        digits_val(dec_str(n)) == n,
    decreases n,
{
    if n < 10 {
        assert(dec_str(n) =~= seq![digit_char(n)]);
        assert(dec_str(n).drop_last() =~= Seq::<char>::empty());
        assert(dec_str(n).last() == digit_char(n));
        assert(digits_val(Seq::<char>::empty()) == 0);
        assert(digits_val(dec_str(n)) == 0 * 10 + digit_val(digit_char(n)));
    } else {
        lemma_dec_str_val(n / 10);
        let s = dec_str(n);
        assert(s =~= dec_str(n / 10).push(digit_char(n % 10)));
        assert(s.drop_last() =~= dec_str(n / 10));
        assert(s.last() == digit_char(n % 10));
        assert(digits_val(s) == (n / 10) * 10 + (n % 10));
        assert((n / 10) * 10 + (n % 10) == n) by (nonlinear_arith);
        assert forall|i: int| 0 <= i < s.len() implies is_digit(#[trigger] s[i]) by {
            if i < s.len() - 1 {
                assert(s[i] == dec_str(n / 10)[i]);
            }
        }
    }
}

/// A zero prepended to a digit string does not change its value.
pub proof fn lemma_digits_val_leading_zero(t: Seq<char>)
    ensures
        digits_val(seq!['0'] + t) == digits_val(t),
    decreases t.len(),
{
    if t.len() == 0 {
        assert(seq!['0'] + t =~= seq!['0']);
        assert((seq!['0'] + t).drop_last() =~= Seq::<char>::empty());
        assert(digits_val(Seq::<char>::empty()) == 0);
        assert(digit_val('0') == 0);
        assert(digits_val(seq!['0'] + t) == 0 * 10 + digit_val('0'));
    } else {
        lemma_digits_val_leading_zero(t.drop_last());
        assert((seq!['0'] + t).drop_last() =~= seq!['0'] + t.drop_last());
        assert((seq!['0'] + t).last() == t.last());
    }
}

/// Extending a digit string on the right cannot decrease its value.
pub proof fn lemma_digits_val_take_grows(s: Seq<char>, i: int)
    requires
        0 <= i < s.len(),
    ensures
        digits_val(s.take(i + 1)) >= digits_val(s.take(i)),
{
    assert(s.take(i + 1).drop_last() =~= s.take(i));
    assert(digits_val(s.take(i + 1)) == digits_val(s.take(i)) * 10 + digit_val(s.take(i + 1).last()));
}

/// Reads an unsigned decimal token. Returns the denoted value, or `None`
/// when the token is empty, holds a non-digit, or denotes a value that does
/// not fit in `usize`.
pub fn parse_decimal(tok: &str) -> (r: Option<usize>)
    ensures
        r is Some <==> tok@.len() > 0 && all_digits(tok@) && digits_val(tok@) <= usize::MAX,
        r matches Some(v) ==> v == digits_val(tok@),
{
    let n = tok.unicode_len();
    if n == 0 {
        return None;
    }
    let mut i: usize = 0;
    let mut val: u128 = 0;
    let mut too_big: bool = false;
    while i < n
        invariant
            0 < n == tok@.len(),
            0 <= i <= n,
            all_digits(tok@.take(i as int)),
            !too_big ==> val == digits_val(tok@.take(i as int)) && val <= usize::MAX as u128,
            too_big ==> digits_val(tok@.take(i as int)) > usize::MAX,
        decreases n - i,
    {
        let c = tok.get_char(i);
        let u = c as u32;
        if u < 48 || u > 57 {
            assert(!is_digit(tok@[i as int]));
            return None;
        }
        assert(tok@.take(i + 1).drop_last() =~= tok@.take(i as int));
        assert(tok@.take(i + 1).last() == tok@[i as int]);
        if too_big {
            proof {
                lemma_digits_val_take_grows(tok@, i as int);
            }
        } else {
            let d = (u - 48) as u128;
            let nv: u128 = val * 10 + d;
            if nv > usize::MAX as u128 {
                too_big = true;
            } else {
                val = nv;
            }
        }
        i = i + 1;
    }
    assert(tok@.take(n as int) =~= tok@);
    if too_big {
        None
    } else {
        Some(val as usize)
    }
}

/// The canonical numeral of `n`, as an owned string.
pub fn usize_to_string(n: usize) -> (r: String)
    ensures
        r@ == dec_str(n as nat),
    decreases n,
{
    let d = n % 10;
    let ds = digit_str(d);
    if n < 10 {
        proof {
            reveal_strlit_digits();
        }
        assert(dec_str(n as nat) =~= seq![digit_char(n as nat)]);
        ds.to_owned()
    } else {
        let mut s = usize_to_string(n / 10);
        s.append(ds);
        assert(s@ =~= dec_str((n / 10) as nat).push(digit_char((n % 10) as nat)));
        s
    }
}

/// `k` spaces.
pub open spec fn spaces(k: nat) -> Seq<char> {
    Seq::new(k, |i: int| ' ')
}

/// The numeral of `n` padded with spaces on the left to at least `w`
/// characters; a numeral already that wide is kept whole.
pub open spec fn pad_spec(n: nat, w: nat) -> Seq<char> {
    let d = dec_str(n);
    if d.len() < w {
        spaces((w - d.len()) as nat) + d
    } else {
        d
    }
}

/// The numeral of `n`, right-aligned in a field of `width` characters.
pub fn pad_left(n: usize, width: usize) -> (r: String)
    ensures
        r@ == pad_spec(n as nat, width as nat),
{
    let ds = usize_to_string(n);
    let dl = ds.as_str().unicode_len();
    let pad = if dl < width {
        width - dl
    } else {
        0
    };
    let mut out = String::new();
    proof {
        reveal_strlit(" ");
        assert(out@ =~= spaces(0));
    }
    let mut j: usize = 0;
    while j < pad
        invariant
            j <= pad,
            " "@ == seq![' '],
            out@ == spaces(j as nat),
        decreases pad - j,
    {
        out.append(" ");
        proof {
            assert(spaces(j as nat) + seq![' '] =~= spaces((j + 1) as nat));
        }
        j = j + 1;
    }
    out.append(ds.as_str());
    proof {
        if dl >= width {
            assert(spaces(0) + ds@ =~= ds@);
        }
    }
    out
}

/// The one-character string for a digit value below ten.
fn digit_str(d: usize) -> (r: &'static str)
    requires
        d < 10,
    ensures
        r@ == seq![digit_char(d as nat)],
{
    proof {
        reveal_strlit_digits();
    }
    if d == 0 {
        "0"
    } else if d == 1 {
        "1"
    } else if d == 2 {
        "2"
    } else if d == 3 {
        "3"
    } else if d == 4 {
        "4"
    } else if d == 5 {
        "5"
    } else if d == 6 {
        "6"
    } else if d == 7 {
        "7"
    } else if d == 8 {
        "8"
    } else {
        "9"
    }
}

/// Reveals the views of the ten digit literals.
proof fn reveal_strlit_digits()
    ensures
        "0"@ =~= seq!['0'],
        "1"@ =~= seq!['1'],
        "2"@ =~= seq!['2'],
        "3"@ =~= seq!['3'],
        "4"@ =~= seq!['4'],
        "5"@ =~= seq!['5'],
        "6"@ =~= seq!['6'],
        "7"@ =~= seq!['7'],
        "8"@ =~= seq!['8'],
        "9"@ =~= seq!['9'],
{
    reveal_strlit("0");
    reveal_strlit("1");
    reveal_strlit("2");
    reveal_strlit("3");
    reveal_strlit("4");
    reveal_strlit("5");
    reveal_strlit("6");
    reveal_strlit("7");
    reveal_strlit("8");
    reveal_strlit("9");
}

} // verus!
