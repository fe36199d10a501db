//! Character-level text primitives: splitting a string on a separator
//! character, joining tokens with a separator, and a membership scan.
//! The splitting follows `str::split` on a single character: separators
//! delimit tokens, so a string of `k` separators yields `k + 1` tokens,
//! and the empty string yields one empty token.

use vstd::prelude::*;

verus! {

use vstd::string::StrSliceExecFns;
use vstd::string::StringExecFns;

/// The tokens of `s` delimited by the separator `d`, in order.
pub open spec fn split_chars(s: Seq<char>, d: char) -> Seq<Seq<char>>
    decreases s.len(),
{
    if s.len() == 0 {
        seq![s]
    } else if s[0] == d {
        seq![Seq::<char>::empty()] + split_chars(s.drop_first(), d)
    } else {
        let r = split_chars(s.drop_first(), d);
        r.update(0, seq![s[0]] + r[0])
    }
}

/// Splitting yields at least one token.
pub proof fn lemma_split_len(s: Seq<char>, d: char)
    ensures
        split_chars(s, d).len() >= 1,
    decreases s.len(),
{
    if s.len() > 0 {
        lemma_split_len(s.drop_first(), d);
    }
}

/// When the first `b` characters of `s` are free of the separator and
/// position `b` (if inside `s`) holds it, the first token is `s.take(b)`
/// and the rest is the splitting of what follows the separator.
pub proof fn lemma_split_head(s: Seq<char>, d: char, b: int)
    requires
        0 <= b <= s.len(),
        forall|k: int| 0 <= k < b ==> s[k] != d,
        b < s.len() ==> s[b] == d,
    ensures
        b == s.len() ==> split_chars(s, d) == seq![s],
        b < s.len() ==> split_chars(s, d) == seq![s.take(b)] + split_chars(s.skip(b + 1), d),
    decreases b,
{
    lemma_split_len(s, d);
    if b == 0 {
        if s.len() == 0 {
            assert(split_chars(s, d) == seq![s]);
        } else {
            assert(s[0] == d);
            assert(s.take(0) =~= Seq::<char>::empty());
            assert(s.skip(1) =~= s.drop_first());
            assert(split_chars(s, d) =~= seq![s.take(0)] + split_chars(s.skip(1), d));
        }
    } else {
        let t = s.drop_first();
        assert(forall|k: int| 0 <= k < b - 1 ==> t[k] != d);
        lemma_split_head(t, d, b - 1);
        lemma_split_len(t, d);
        let r = split_chars(t, d);
        if b == s.len() {
            assert(r == seq![t]);
            assert(seq![s[0]] + t =~= s);
            assert(split_chars(s, d) =~= seq![s]);
        } else {
            assert(r == seq![t.take(b - 1)] + split_chars(t.skip(b), d));
            assert(t.skip(b) =~= s.skip(b + 1));
            assert(r[0] == t.take(b - 1));
            assert(seq![s[0]] + t.take(b - 1) =~= s.take(b));
            assert(r.update(0, s.take(b)) =~= seq![s.take(b)] + split_chars(s.skip(b + 1), d));
        }
    }
}

/// Splits `s` on the separator `d`, as `str::split` does on a character.
pub fn split_str(s: &str, d: char) -> (r: Vec<String>)
    ensures
        r.deep_view() == split_chars(s@, d),
{
    let n = s.unicode_len();
    let mut out: Vec<String> = Vec::new();
    proof {
        assert(s@.skip(0) =~= s@);
        assert(out.deep_view() + split_chars(s@, d) =~= split_chars(s@, d));
    }
    let mut tok_start: usize = 0;
    let mut i: usize = 0;
    while i < n
        invariant
            tok_start <= i <= n == s@.len(),
            forall|k: int| tok_start <= k < i ==> s@[k] != d,
            split_chars(s@, d) == out.deep_view() + split_chars(s@.skip(tok_start as int), d),
        decreases n - i,
    {
        let c = s.get_char(i);
        if c == d {
            let tok = s.substring_char(tok_start, i);
            let ghost rest = s@.skip(tok_start as int);
            proof {
                assert(forall|k: int| 0 <= k < i - tok_start ==> rest[k] != d);
                lemma_split_head(rest, d, i - tok_start);
                assert(rest.take(i - tok_start) =~= s@.subrange(tok_start as int, i as int));
                assert(rest.skip(i - tok_start + 1) =~= s@.skip(i + 1));
            }
            let owned = tok.to_owned();
            let ghost old_dv = out.deep_view();
            out.push(owned);
            proof {
                assert(out.deep_view() =~= old_dv + seq![s@.subrange(tok_start as int, i as int)]);
                assert(out.deep_view() + split_chars(s@.skip(i + 1), d) =~= (old_dv + (seq![
                    s@.subrange(tok_start as int, i as int),
                ] + split_chars(s@.skip(i + 1), d))));
            }
            tok_start = i + 1;
        }
        i = i + 1;
    }
    let tok = s.substring_char(tok_start, n);
    let ghost rest = s@.skip(tok_start as int);
    proof {
        assert(forall|k: int| 0 <= k < n - tok_start ==> rest[k] != d);
        lemma_split_head(rest, d, n - tok_start);
        assert(rest =~= s@.subrange(tok_start as int, n as int));
    }
    let owned = tok.to_owned();
    let ghost old_dv = out.deep_view();
    out.push(owned);
    proof {
        assert(out.deep_view() =~= old_dv + seq![s@.subrange(tok_start as int, n as int)]);
    }
    out
}

/// Splitting around one separator splits each side on its own.
pub proof fn lemma_split_concat(a: Seq<char>, b: Seq<char>, d: char)
    ensures
        split_chars(a + seq![d] + b, d) == split_chars(a, d) + split_chars(b, d),
    decreases a.len(),
{
    let s = a + seq![d] + b;
    lemma_split_len(b, d);
    if a.len() == 0 {
        assert(s =~= seq![d] + b);
        assert(s[0] == d);
        assert(s.drop_first() =~= b);
        assert(a =~= Seq::<char>::empty());
        assert(split_chars(a, d) =~= seq![Seq::<char>::empty()]);
        assert(split_chars(s, d) =~= split_chars(a, d) + split_chars(b, d));
    } else {
        let t = a.drop_first();
        assert(s.drop_first() =~= t + seq![d] + b);
        lemma_split_concat(t, b, d);
        lemma_split_len(t, d);
        if a[0] == d {
            assert(s[0] == d);
            assert(split_chars(s, d) == seq![Seq::<char>::empty()] + (split_chars(t, d)
                + split_chars(b, d)));
            assert(split_chars(a, d) == seq![Seq::<char>::empty()] + split_chars(t, d));
            assert(seq![Seq::<char>::empty()] + (split_chars(t, d) + split_chars(b, d)) =~= (seq![
                Seq::<char>::empty(),
            ] + split_chars(t, d)) + split_chars(b, d));
        } else {
            assert(s[0] == a[0]);
            let r = split_chars(t, d) + split_chars(b, d);
            assert(r[0] == split_chars(t, d)[0]);
            assert(split_chars(s, d) == r.update(0, seq![a[0]] + split_chars(t, d)[0]));
            assert(split_chars(a, d) == split_chars(t, d).update(
                0,
                seq![a[0]] + split_chars(t, d)[0],
            ));
            assert(r.update(0, seq![a[0]] + split_chars(t, d)[0]) =~= split_chars(t, d).update(
                0,
                seq![a[0]] + split_chars(t, d)[0],
            ) + split_chars(b, d));
        }
    }
}

/// The tokens of `ts` joined with the separator `d` between neighbours.
pub open spec fn join_chars(ts: Seq<Seq<char>>, d: char) -> Seq<char>
    decreases ts.len(),
{
    if ts.len() == 0 {
        Seq::empty()
    } else if ts.len() == 1 {
        ts[0]
    } else {
        ts[0] + seq![d] + join_chars(ts.drop_first(), d)
    }
}

/// Joining after adding a token on the right appends a separator and
/// that token, unless nothing was there before.
pub proof fn lemma_join_snoc(ts: Seq<Seq<char>>, d: char, x: Seq<char>)
    ensures
        join_chars(ts.push(x), d) == if ts.len() == 0 {
            x
        } else {
            join_chars(ts, d) + seq![d] + x
        },
    decreases ts.len(),
{
    if ts.len() == 0 {
        assert(ts.push(x) =~= seq![x]);
    } else {
        assert(ts.push(x).drop_first() =~= ts.drop_first().push(x));
        lemma_join_snoc(ts.drop_first(), d, x);
        if ts.len() == 1 {
            assert(join_chars(ts.push(x), d) == ts[0] + seq![d] + x);
            assert(join_chars(ts, d) == ts[0]);
        } else {
            assert(join_chars(ts.push(x), d) == ts[0] + seq![d] + (join_chars(ts.drop_first(), d)
                + seq![d] + x));
            assert(ts[0] + seq![d] + (join_chars(ts.drop_first(), d) + seq![d] + x) =~= (ts[0]
                + seq![d] + join_chars(ts.drop_first(), d)) + seq![d] + x);
        }
    }
}

/// Joins the tokens of `ts` with the separator `d` between neighbours.
pub fn join_tokens(ts: &Vec<String>, d: char) -> (r: String)
    ensures
        r@ == join_chars(ts.deep_view(), d),
{
    let sep = char_str(d);
    let mut out = String::new();
    let mut i: usize = 0;
    while i < ts.len()
        invariant
            i <= ts.len(),
            sep@ == seq![d],
            out@ == join_chars(ts.deep_view().take(i as int), d),
        decreases ts.len() - i,
    {
        if i > 0 {
            out.append(sep.as_str());
        }
        out.append(ts[i].as_str());
        proof {
            let dv = ts.deep_view();
            assert(dv.take(i + 1) =~= dv.take(i as int).push(dv[i as int]));
            lemma_join_snoc(dv.take(i as int), d, dv[i as int]);
            assert(dv[i as int] == ts[i as int]@);
        }
        i = i + 1;
    }
    proof {
        assert(ts.deep_view().take(ts.len() as int) =~= ts.deep_view());
    }
    out
}

/// The words of an echo-style tool joined with single spaces, ended by a
/// newline unless the caller asked it off.
pub fn join_words(words: &Vec<String>, omit_newline: bool) -> (r: String)
    ensures
        omit_newline ==> r@ == join_chars(words.deep_view(), ' '),
        !omit_newline ==> r@ == join_chars(words.deep_view(), ' ') + seq!['\n'],
{
    let mut out = join_tokens(words, ' ');
    if !omit_newline {
        out.append("\n");
        proof {
            reveal_strlit("\n");
        }
    }
    out
}

/// Whether the character `d` occurs in `s`.
pub fn str_contains_char(s: &str, d: char) -> (r: bool)
    ensures
        r == s@.contains(d),
{
    let n = s.unicode_len();
    let mut i: usize = 0;
    while i < n
        invariant
            i <= n == s@.len(),
            forall|k: int| 0 <= k < i ==> s@[k] != d,
        decreases n - i,
    {
        if s.get_char(i) == d {
            assert(s@.contains(d)) by {
                assert(s@[i as int] == d);
            }
            return true;
        }
        i = i + 1;
    }
    false
}

/// Whether `c` carries the Unicode `White_Space` property, the set that
/// `char::is_whitespace` documents.
pub open spec fn is_space(c: char) -> bool {
    let u = c as u32;
    (9 <= u && u <= 13) || u == 0x20 || u == 0x85 || u == 0xA0 || u == 0x1680 || (0x2000 <= u && u
        <= 0x200A) || u == 0x2028 || u == 0x2029 || u == 0x202F || u == 0x205F || u == 0x3000
}

/// Decides `is_space`.
pub fn char_is_space(c: char) -> (r: bool)
    ensures
        r == is_space(c),
{
    let u = c as u32;
    (9 <= u && u <= 13) || u == 0x20 || u == 0x85 || u == 0xA0 || u == 0x1680 || (0x2000 <= u && u
        <= 0x200A) || u == 0x2028 || u == 0x2029 || u == 0x202F || u == 0x205F || u == 0x3000
}

/// `s` without its trailing whitespace, as `str::trim_end` leaves it.
pub open spec fn trim_end_chars(s: Seq<char>) -> Seq<char>
    decreases s.len(),
{
    if s.len() == 0 {
        s
    } else if is_space(s.last()) {
        trim_end_chars(s.drop_last())
    } else {
        s
    }
}

/// The character position where the trailing whitespace of `s` begins.
pub fn trim_end_pos(s: &str) -> (r: usize)
    ensures
        r <= s@.len(),
        trim_end_chars(s@) == s@.take(r as int),
{
    let n = s.unicode_len();
    proof {
        assert(s@.take(n as int) =~= s@);
    }
    let mut e = n;
    while e > 0
        invariant
            e <= n == s@.len(),
            trim_end_chars(s@) == trim_end_chars(s@.take(e as int)),
        decreases e,
    {
        let c = s.get_char(e - 1);
        if char_is_space(c) {
            proof {
                assert(s@.take(e as int).last() == c);
                assert(s@.take(e as int).drop_last() =~= s@.take(e - 1));
            }
            e = e - 1;
        } else {
            proof {
                assert(s@.take(e as int).last() == c);
                assert(trim_end_chars(s@.take(e as int)) == s@.take(e as int));
            }
            return e;
        }
    }
    proof {
        assert(s@.take(0) =~= Seq::<char>::empty());
    }
    0
}

/// Whether two strings are equal once trailing whitespace is dropped.
pub fn trim_end_eq(a: &str, b: &str) -> (r: bool)
    ensures
        r == (trim_end_chars(a@) == trim_end_chars(b@)),
{
    let ea = trim_end_pos(a);
    let eb = trim_end_pos(b);
    if ea != eb {
        proof {
            assert(a@.take(ea as int).len() != b@.take(eb as int).len());
        }
        return false;
    }
    let mut i: usize = 0;
    while i < ea
        invariant
            i <= ea == eb,
            ea <= a@.len(),
            eb <= b@.len(),
            trim_end_chars(a@) == a@.take(ea as int),
            trim_end_chars(b@) == b@.take(eb as int),
            forall|k: int| 0 <= k < i ==> a@[k] == b@[k],
        decreases ea - i,
    {
        if a.get_char(i) != b.get_char(i) {
            proof {
                assert(a@.take(ea as int)[i as int] != b@.take(eb as int)[i as int]);
            }
            return false;
        }
        i = i + 1;
    }
    proof {
        assert(a@.take(ea as int) =~= b@.take(eb as int));
    }
    true
}

/// Relies on `char`'s `ToString`: the string of one character is that
/// character alone.
#[verifier::external_body]
pub(crate) fn char_str(c: char) -> (r: String)
    ensures
        r@ == seq![c],
{
    c.to_string()
}

} // verus!
