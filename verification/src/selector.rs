//! The selector language of a `cut`-style tool.
//!
//! A selector string is a comma-separated list of parts; each part is a
//! single positive 1-based index `N`, or an inclusive 1-based range `A-B`
//! with `0 < A < B`. Each part becomes a half-open 0-based range: `N` becomes
//! `[N-1, N)` and `A-B` becomes `[A-1, B)`. Parts are kept in the order they
//! were written, neither merged nor de-duplicated, and the first invalid part
//! aborts the parse with its own error.

use vstd::prelude::*;

verus! {

use crate::numeral::all_digits;
use crate::numeral::dec_str;
use crate::numeral::digits_val;
use crate::numeral::is_digit;
use crate::numeral::lemma_dec_str_val;
use crate::numeral::lemma_digits_val_leading_zero;
use crate::numeral::parse_decimal;
use crate::numeral::usize_to_string;
use vstd::string::StringExecFns;
use crate::text::lemma_split_head;
use crate::text::split_chars;
use crate::text::split_str;

/// A half-open range `[start, end)` of 0-based positions, with
/// `start < end` for every range a successful parse produces.
#[derive(Debug, Clone, Copy, PartialEq, Eq, Structural)]
pub struct IndexRange {
    pub start: usize,
    pub end: usize,
}

/// An ordered list of ranges, as the parser produced them.
pub type Selector = Vec<IndexRange>;

/// Why a selector string was rejected. Each variant reports the first
/// offending part.
#[derive(Debug, PartialEq, Eq)]
pub enum ParseError {
    /// A part's component is not a bare decimal number that fits in `usize`.
    InvalidNumber(String),
    /// A single index is zero.
    InvalidIndex,
    /// A two-sided range starts at zero.
    InvalidRangeStart,
    /// A two-sided range whose start is not below its end, with the
    /// original 1-based values.
    InvalidRangeOrder(usize, usize),
    /// A part with more than two `-`-separated components.
    InvalidRange(Vec<String>),
}

/// The mathematical shadow of `ParseError`, over sequences of characters.
pub enum SelectorFault {
    Number(Seq<char>),
    Index,
    RangeStart,
    RangeOrder(int, int),
    Parts(Seq<Seq<char>>),
}

/// The fault a `ParseError` stands for.
pub open spec fn fault_of(e: ParseError) -> SelectorFault {
    match e {
        ParseError::InvalidNumber(t) => SelectorFault::Number(t@),
        ParseError::InvalidIndex => SelectorFault::Index,
        ParseError::InvalidRangeStart => SelectorFault::RangeStart,
        ParseError::InvalidRangeOrder(a, b) => SelectorFault::RangeOrder(a as int, b as int),
        ParseError::InvalidRange(ps) => SelectorFault::Parts(ps.deep_view()),
    }
}

/// The tokens of a rejected part written between double quotes and joined
/// with comma-space, the way the parser's report lists them.
pub open spec fn quoted_list(ps: Seq<Seq<char>>) -> Seq<char>
    decreases ps.len(),
{
    if ps.len() == 0 {
        Seq::empty()
    } else if ps.len() == 1 {
        seq!['"'] + ps[0] + seq!['"']
    } else {
        quoted_list(ps.drop_last()) + seq![',', ' '] + (seq!['"'] + ps.last() + seq!['"'])
    }
}

/// The report `message` produces for each error.
pub open spec fn message_spec(e: ParseError) -> Seq<char> {
    match e {
        ParseError::InvalidNumber(t) => "Invalid number: "@ + t@,
        ParseError::InvalidIndex => "Invalid number, must be greater than 0"@,
        ParseError::InvalidRangeStart => "Invalid range, start must be greater than 0"@,
        ParseError::InvalidRangeOrder(a, b) => "First number in range ("@ + dec_str(a as nat)
            + ") must be lower than second number ("@ + dec_str(b as nat) + ")"@,
        ParseError::InvalidRange(ps) => "Invalid range: ["@ + quoted_list(ps.deep_view())
            + "]"@,
    }
}

impl ParseError {
    /// The report for this error, naming the offending part.
    pub fn message(&self) -> (r: String)
        ensures
            r@ == message_spec(*self),
    {
        match self {
            ParseError::InvalidNumber(t) => {
                let mut m = String::new();
                m.append("Invalid number: ");
                m.append(t.as_str());
                proof {
                    assert(m@ =~= "Invalid number: "@ + t@);
                }
                m
            },
            ParseError::InvalidIndex => "Invalid number, must be greater than 0".to_owned(),
            ParseError::InvalidRangeStart => "Invalid range, start must be greater than 0"
                .to_owned(),
            ParseError::InvalidRangeOrder(a, b) => {
                let mut m = String::new();
                m.append("First number in range (");
                let an = usize_to_string(*a);
                m.append(an.as_str());
                m.append(") must be lower than second number (");
                let bn = usize_to_string(*b);
                m.append(bn.as_str());
                m.append(")");
                proof {
                    assert(m@ =~= message_spec(*self));
                }
                m
            },
            ParseError::InvalidRange(ps) => {
                let ghost dv = ps.deep_view();
                let mut m = String::new();
                m.append("Invalid range: [");
                let mut i: usize = 0;
                while i < ps.len()
                    invariant
                        i <= ps.len(),
                        dv == ps.deep_view(),
                        dv.len() == ps.len(),
                        m@ == "Invalid range: ["@ + quoted_list(dv.take(i as int)),
                    decreases ps.len() - i,
                {
                    if i > 0 {
                        m.append(", ");
                    }
                    m.append("\"");
                    m.append(ps[i].as_str());
                    m.append("\"");
                    proof {
                        reveal_strlit("\"");
                        reveal_strlit(", ");
                        assert(dv.take(i + 1).drop_last() =~= dv.take(i as int));
                        assert(dv.take(i + 1).last() == dv[i as int]);
                        assert(dv[i as int] == ps@[i as int]@);
                        if i == 0 {
                            assert(quoted_list(dv.take(1)) =~= seq!['"'] + dv[0] + seq!['"']);
                            assert(m@ =~= "Invalid range: ["@ + quoted_list(dv.take(1)));
                        } else {
                            assert(quoted_list(dv.take(i + 1)) =~= quoted_list(dv.take(i as int))
                                + seq![',', ' '] + (seq!['"'] + dv[i as int] + seq!['"']));
                            assert(m@ =~= "Invalid range: ["@ + quoted_list(dv.take(i + 1)));
                        }
                    }
                    i = i + 1;
                }
                m.append("]");
                proof {
                    assert(dv.take(dv.len() as int) =~= dv);
                    assert(m@ =~= "Invalid range: ["@ + quoted_list(dv) + "]"@);
                }
                m
            },
        }
    }
}

/// Whether `t` is a well-formed number token: non-empty, all decimal
/// digits, and small enough to index with.
pub open spec fn is_number(t: Seq<char>) -> bool {
    t.len() > 0 && all_digits(t) && digits_val(t) <= usize::MAX
}

/// What one comma-separated part means.
pub open spec fn parse_part(p: Seq<char>) -> Result<IndexRange, SelectorFault> {
    let comps = split_chars(p, '-');
    if comps.len() == 1 {
        if !is_number(comps[0]) {
            Err(SelectorFault::Number(comps[0]))
        } else if digits_val(comps[0]) == 0 {
            Err(SelectorFault::Index)
        } else {
            Ok(
                IndexRange {
                    start: (digits_val(comps[0]) - 1) as usize,
                    end: digits_val(comps[0]) as usize,
                },
            )
        }
    } else if comps.len() == 2 {
        if !is_number(comps[0]) {
            Err(SelectorFault::Number(comps[0]))
        } else if !is_number(comps[1]) {
            Err(SelectorFault::Number(comps[1]))
        } else {
            let a = digits_val(comps[0]);
            let b = digits_val(comps[1]);
            if a >= b {
                Err(SelectorFault::RangeOrder(a as int, b as int))
            } else if a == 0 {
                Err(SelectorFault::RangeStart)
            } else {
                Ok(IndexRange { start: (a - 1) as usize, end: b as usize })
            }
        }
    } else {
        Err(SelectorFault::Parts(comps))
    }
}

/// What a list of parts means: the ranges in order, or the first fault.
pub open spec fn parse_parts(ps: Seq<Seq<char>>) -> Result<Seq<IndexRange>, SelectorFault>
    decreases ps.len(),
{
    if ps.len() == 0 {
        Ok(Seq::empty())
    } else {
        match parse_part(ps[0]) {
            Err(e) => Err(e),
            Ok(r) => match parse_parts(ps.drop_first()) {
                Err(e) => Err(e),
                Ok(rs) => Ok(seq![r] + rs),
            },
        }
    }
}

/// What a whole selector string means.
pub open spec fn parse_sel(s: Seq<char>) -> Result<Seq<IndexRange>, SelectorFault> {
    parse_parts(split_chars(s, ','))
}

/// The meaning of a concrete parse result.
pub open spec fn parse_abs(r: Result<Selector, ParseError>) -> Result<
    Seq<IndexRange>,
    SelectorFault,
> {
    match r {
        Ok(sel) => Ok(sel@),
        Err(e) => Err(fault_of(e)),
    }
}

/// The meaning of a concrete one-part result.
pub open spec fn part_abs(r: Result<IndexRange, ParseError>) -> Result<
    IndexRange,
    SelectorFault,
> {
    match r {
        Ok(rg) => Ok(rg),
        Err(e) => Err(fault_of(e)),
    }
}

/// Parses one comma-separated part.
fn parse_one_part(part: &str) -> (r: Result<IndexRange, ParseError>)
    ensures
        part_abs(r) == parse_part(part@),
{
    let comps = split_str(part, '-');
    let ghost cs = comps.deep_view();
    if comps.len() == 1 {
        match parse_decimal(comps[0].as_str()) {
            None => Err(ParseError::InvalidNumber(comps[0].clone())),
            Some(v) => {
                if v == 0 {
                    Err(ParseError::InvalidIndex)
                } else {
                    Ok(IndexRange { start: v - 1, end: v })
                }
            },
        }
    } else if comps.len() == 2 {
        match parse_decimal(comps[0].as_str()) {
            None => Err(ParseError::InvalidNumber(comps[0].clone())),
            Some(a) => match parse_decimal(comps[1].as_str()) {
                None => Err(ParseError::InvalidNumber(comps[1].clone())),
                Some(b) => {
                    if a >= b {
                        Err(ParseError::InvalidRangeOrder(a, b))
                    } else if a == 0 {
                        Err(ParseError::InvalidRangeStart)
                    } else {
                        Ok(IndexRange { start: a - 1, end: b })
                    }
                },
            },
        }
    } else {
        Err(ParseError::InvalidRange(comps))
    }
}

/// Parses a selector string into its ordered list of half-open ranges,
/// or reports the first offending part. The exact grammar, including every
/// error, is `parse_sel`.
pub fn parse_selector(s: &str) -> (r: Result<Selector, ParseError>)
    ensures
        parse_abs(r) == parse_sel(s@),
        r matches Ok(sel) ==> selector_wf(sel@),
{
    let parts = split_str(s, ',');
    let ghost ps = parts.deep_view();
    let mut out: Vec<IndexRange> = Vec::new();
    proof {
        assert(ps.skip(0) =~= ps);
        assert(out@ + Seq::<IndexRange>::empty() =~= Seq::<IndexRange>::empty());
    }
    let mut i: usize = 0;
    while i < parts.len()
        invariant
            i <= parts.len(),
            ps == parts.deep_view(),
            ps == split_chars(s@, ','),
            selector_wf(out@),
            parse_parts(ps) == (match parse_parts(ps.skip(i as int)) {
                Ok(rs) => Ok::<Seq<IndexRange>, SelectorFault>(out@ + rs),
                Err(e) => Err(e),
            }),
        decreases parts.len() - i,
    {
        let ghost rest = ps.skip(i as int);
        proof {
            assert(rest[0] == ps[i as int]);
            assert(rest.drop_first() =~= ps.skip(i + 1));
        }
        match parse_one_part(parts[i].as_str()) {
            Err(e) => {
                return Err(e);
            },
            Ok(rg) => {
                proof {
                    lemma_part_range_wf(ps[i as int]);
                    assert(ps[i as int] == parts@[i as int]@);
                    assert(parse_part(rest[0]) == Ok::<IndexRange, SelectorFault>(rg));
                }
                let ghost old_out = out@;
                out.push(rg);
                proof {
                    assert(out@ =~= old_out + seq![rg]);
                    match parse_parts(ps.skip(i + 1)) {
                        Ok(rs) => {
                            assert(parse_parts(rest) == Ok::<Seq<IndexRange>, SelectorFault>(
                                seq![rg] + rs,
                            ));
                            assert(old_out + (seq![rg] + rs) =~= (old_out + seq![rg]) + rs);
                        },
                        Err(e) => {
                            assert(parse_parts(rest) == Err::<Seq<IndexRange>, SelectorFault>(e));
                        },
                    }
                    assert forall|k: int| 0 <= k < out@.len() implies (#[trigger] out@[k]).start
                        < out@[k].end by {
                        if k < old_out.len() {
                            assert(out@[k] == old_out[k]);
                        } else {
                            assert(out@[k] == rg);
                        }
                    }
                }
            },
        }
        i = i + 1;
    }
    proof {
        assert(ps.skip(parts.len() as int) =~= Seq::<Seq<char>>::empty());
        assert(out@ + Seq::<IndexRange>::empty() =~= out@);
    }
    Ok(out)
}

/// Every range a successful parse yields is non-empty: `start < end`.
pub open spec fn selector_wf(rs: Seq<IndexRange>) -> bool {
    forall|i: int| 0 <= i < rs.len() ==> (#[trigger] rs[i]).start < rs[i].end
}

/// A part that parses yields a range with `start < end`.
proof fn lemma_part_range_wf(p: Seq<char>)
    ensures
        parse_part(p) matches Ok(rg) ==> rg.start < rg.end,
{
}

/// No decimal digit is a comma or a hyphen.
proof fn lemma_digits_not_sep(t: Seq<char>)
    requires
        all_digits(t),
    ensures
        forall|k: int| 0 <= k < t.len() ==> t[k] != ',' && t[k] != '-',
{
    assert forall|k: int| 0 <= k < t.len() implies t[k] != ',' && t[k] != '-' by {
        assert(is_digit(t[k]));
    }
}

/// The selector that is one positive 1-based index `n`, written as its
/// decimal numeral, parses to the single range `[n-1, n)`.
pub proof fn lemma_parse_single(n: usize)
    requires
        n >= 1,
    ensures
        parse_sel(dec_str(n as nat)) == Ok::<Seq<IndexRange>, SelectorFault>(
            seq![IndexRange { start: (n - 1) as usize, end: n }],
        ),
{
    let s = dec_str(n as nat);
    lemma_dec_str_val(n as nat);
    lemma_digits_not_sep(s);
    lemma_split_head(s, ',', s.len() as int);
    lemma_split_head(s, '-', s.len() as int);
    assert(parse_part(s) == Ok::<IndexRange, SelectorFault>(
        IndexRange { start: (n - 1) as usize, end: n },
    )) by {
        assert(split_chars(s, '-') == seq![s]);
        assert(split_chars(s, '-')[0] == s);
        assert(is_number(s));
    }
    assert(seq![s].drop_first() =~= Seq::<Seq<char>>::empty());
    assert(seq![s][0] == s);
    assert(parse_parts(Seq::<Seq<char>>::empty()) == Ok::<Seq<IndexRange>, SelectorFault>(
        Seq::empty(),
    ));
    assert(parse_parts(seq![s]) == Ok::<Seq<IndexRange>, SelectorFault>(
        seq![IndexRange { start: (n - 1) as usize, end: n }] + Seq::empty(),
    ));
    assert(seq![IndexRange { start: (n - 1) as usize, end: n }] + Seq::empty()
        =~= seq![IndexRange { start: (n - 1) as usize, end: n }]);
}

/// The selector `a-b`, with positive 1-based `a < b` written as decimal
/// numerals, parses to the single range `[a-1, b)`.
pub proof fn lemma_parse_pair(a: usize, b: usize)
    requires
        1 <= a < b,
    ensures
        parse_sel(dec_str(a as nat) + seq!['-'] + dec_str(b as nat)) == Ok::<
            Seq<IndexRange>,
            SelectorFault,
        >(seq![IndexRange { start: (a - 1) as usize, end: b }]),
{
    let x = dec_str(a as nat);
    let y = dec_str(b as nat);
    let s = x + seq!['-'] + y;
    lemma_dec_str_val(a as nat);
    lemma_dec_str_val(b as nat);
    lemma_digits_not_sep(x);
    lemma_digits_not_sep(y);
    assert(forall|k: int| 0 <= k < s.len() ==> s[k] != ',');
    lemma_split_head(s, ',', s.len() as int);
    assert(s[x.len() as int] == '-');
    assert(forall|k: int| 0 <= k < x.len() ==> s[k] == x[k] && s[k] != '-');
    lemma_split_head(s, '-', x.len() as int);
    let tail = s.skip(x.len() as int + 1);
    assert(tail =~= y);
    lemma_split_head(y, '-', y.len() as int);
    assert(s.take(x.len() as int) =~= x);
    assert(split_chars(s, '-') == seq![x] + seq![y]);
    let comps = split_chars(s, '-');
    assert(comps.len() == 2);
    assert(comps[0] == x && comps[1] == y);
    assert(is_number(x) && is_number(y));
    assert(parse_part(s) == Ok::<IndexRange, SelectorFault>(
        IndexRange { start: (a - 1) as usize, end: b },
    ));
    assert(seq![s].drop_first() =~= Seq::<Seq<char>>::empty());
    assert(seq![s][0] == s);
    assert(parse_parts(Seq::<Seq<char>>::empty()) == Ok::<Seq<IndexRange>, SelectorFault>(
        Seq::empty(),
    ));
    assert(parse_parts(seq![s]) == Ok::<Seq<IndexRange>, SelectorFault>(
        seq![IndexRange { start: (a - 1) as usize, end: b }] + Seq::empty(),
    ));
    assert(seq![IndexRange { start: (a - 1) as usize, end: b }] + Seq::empty()
        =~= seq![IndexRange { start: (a - 1) as usize, end: b }]);
}

/// Parsing a concatenated list of parts parses each side on its own.
proof fn lemma_parse_parts_concat(ps: Seq<Seq<char>>, qs: Seq<Seq<char>>)
    requires
        parse_parts(ps) is Ok,
        parse_parts(qs) is Ok,
    ensures
        parse_parts(ps + qs) == Ok::<Seq<IndexRange>, SelectorFault>(
            parse_parts(ps)->Ok_0 + parse_parts(qs)->Ok_0,
        ),
    decreases ps.len(),
{
    if ps.len() == 0 {
        assert(ps + qs =~= qs);
        assert(parse_parts(ps)->Ok_0 + parse_parts(qs)->Ok_0 =~= parse_parts(qs)->Ok_0);
    } else {
        assert((ps + qs).len() > 0);
        assert((ps + qs)[0] == ps[0]);
        assert((ps + qs).drop_first() =~= ps.drop_first() + qs);
        let r = match parse_part(ps[0]) {
            Ok(r) => r,
            Err(_) => arbitrary(),
        };
        assert(parse_part(ps[0]) is Ok);
        lemma_parse_parts_concat(ps.drop_first(), qs);
        assert(seq![r] + (parse_parts(ps.drop_first())->Ok_0 + parse_parts(qs)->Ok_0) =~= (seq![r]
            + parse_parts(ps.drop_first())->Ok_0) + parse_parts(qs)->Ok_0);
    }
}

/// Selectors compose: what two selectors yield one after the other, their
/// comma-joined concatenation yields in one parse — order is kept and
/// nothing is merged.
pub proof fn lemma_parse_append(s: Seq<char>, t: Seq<char>, rs: Seq<IndexRange>, rt: Seq<
    IndexRange,
>)
    requires
        parse_sel(s) == Ok::<Seq<IndexRange>, SelectorFault>(rs),
        parse_sel(t) == Ok::<Seq<IndexRange>, SelectorFault>(rt),
    ensures
        parse_sel(s + seq![','] + t) == Ok::<Seq<IndexRange>, SelectorFault>(rs + rt),
{
    crate::text::lemma_split_concat(s, t, ',');
    lemma_parse_parts_concat(split_chars(s, ','), split_chars(t, ','));
}

/// A leading zero on a number token changes neither its validity nor its
/// value, so it never changes what a selector means.
pub proof fn lemma_leading_zero(t: Seq<char>)
    requires
        t.len() > 0,
    ensures
        is_number(seq!['0'] + t) == is_number(t),
        digits_val(seq!['0'] + t) == digits_val(t),
{
    lemma_digits_val_leading_zero(t);
    let zt = seq!['0'] + t;
    assert(is_digit('0'));
    assert forall|k: int| 0 <= k < t.len() implies zt[k + 1] == t[k] by {}
    if all_digits(t) {
        assert forall|k: int| 0 <= k < zt.len() implies is_digit(#[trigger] zt[k]) by {
            if k > 0 {
                assert(zt[k] == t[k - 1]);
            }
        }
    }
    if all_digits(zt) {
        assert forall|k: int| 0 <= k < t.len() implies is_digit(#[trigger] t[k]) by {
            assert(t[k] == zt[k + 1]);
        }
    }
}

} // verus!
