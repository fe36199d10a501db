//! The extraction engine: applies a parsed selector to one line of input,
//! by raw byte, by Unicode character, or by delimited field.
//!
//! Every range is clipped to the line's length in the chosen unit; a range
//! wholly past the end contributes nothing and is never an error. Byte and
//! character slices are concatenated with no separator; selected fields are
//! re-joined with the delimiter the line was split on. A line in which the
//! field delimiter never occurs is passed through unchanged.

use vstd::prelude::*;

verus! {

use vstd::string::StrSliceExecFns;
use vstd::string::StringExecFns;
use vstd::utf8::decode_utf8;
use vstd::utf8::encode_utf8;
use vstd::utf8::valid_utf8;

use crate::selector::IndexRange;
use crate::selector::Selector;
use crate::text::join_chars;
use crate::text::join_tokens;
use crate::text::split_chars;
use crate::text::split_str;
use crate::text::str_contains_char;

/// The unit a selector's ranges index into.
#[derive(Debug, Clone, Copy, PartialEq, Eq, Structural)]
pub enum Mode {
    /// Raw bytes of the line.
    Bytes,
    /// Unicode scalar values of the line.
    Chars,
    /// Delimiter-separated fields of the line.
    Fields,
}

/// Why a line could not be extracted from.
#[derive(Debug, Clone, Copy, PartialEq, Eq, Structural)]
pub enum ExtractError {
    /// The line's bytes are not valid text, and the mode needs characters.
    DecodingError,
}

/// The units of `u` that the range `r` selects, clipped to `u`'s length.
pub open spec fn clip_slice<A>(u: Seq<A>, r: IndexRange) -> Seq<A> {
    let n = u.len() as int;
    let lo = if r.start as int <= n {
        r.start as int
    } else {
        n
    };
    let hi = if r.end as int <= n {
        r.end as int
    } else {
        n
    };
    if lo < hi {
        u.subrange(lo, hi)
    } else {
        Seq::empty()
    }
}

/// The units of `u` that the ranges `rs` select, in selector order,
/// each range clipped to `u`'s length.
pub open spec fn select_units<A>(u: Seq<A>, rs: Seq<IndexRange>) -> Seq<A>
    decreases rs.len(),
{
    if rs.len() == 0 {
        Seq::empty()
    } else {
        clip_slice(u, rs[0]) + select_units(u, rs.drop_first())
    }
}

/// What extraction by field yields: the line itself when the delimiter
/// never occurs in it, else the selected fields re-joined with the
/// delimiter.
pub open spec fn fields_spec(s: Seq<char>, rs: Seq<IndexRange>, d: char) -> Seq<char> {
    if !s.contains(d) {
        s
    } else {
        join_chars(select_units(split_chars(s, d), rs), d)
    }
}

/// A range that starts at zero and reaches to the line's length or past it
/// selects the whole line, exactly: clipping never loses available units.
pub proof fn lemma_clip_to_length<A>(u: Seq<A>, rg: IndexRange)
    requires
        rg.start == 0,
        rg.end >= u.len(),
    ensures
        select_units(u, seq![rg]) == u,
{
    assert(seq![rg].drop_first() =~= Seq::<IndexRange>::empty());
    assert(select_units(u, Seq::<IndexRange>::empty()) == Seq::<A>::empty());
    assert(clip_slice(u, rg) =~= u);
    assert(clip_slice(u, rg) + Seq::<A>::empty() =~= u);
}

/// An empty line yields an empty output, whatever the selector: there are
/// no units for any range to select.
pub proof fn lemma_select_units_empty<A>(u: Seq<A>, rs: Seq<IndexRange>)
    requires
        u.len() == 0,
    ensures
        select_units(u, rs).len() == 0,
    decreases rs.len(),
{
    if rs.len() > 0 {
        lemma_select_units_empty(u, rs.drop_first());
    }
}

/// Extraction by field leaves a line without the delimiter unchanged,
/// whatever the selector.
pub proof fn lemma_fields_no_delim(s: Seq<char>, rs: Seq<IndexRange>, d: char)
    requires
        !s.contains(d),
    ensures
        fields_spec(s, rs, d) == s,
{
}

/// Selects the byte ranges of `line`, in selector order, clipped to its
/// length, concatenated with no separator.
pub fn extract_bytes(line: &Vec<u8>, selector: &Selector) -> (r: Vec<u8>)
    ensures
        r@ == select_units(line@, selector@),
{
    let n = line.len();
    let mut out: Vec<u8> = Vec::new();
    proof {
        assert(selector@.skip(0) =~= selector@);
        assert(out@ + select_units(line@, selector@) =~= select_units(line@, selector@));
    }
    let mut i: usize = 0;
    while i < selector.len()
        invariant
            i <= selector.len(),
            n == line@.len(),
            select_units(line@, selector@) == out@ + select_units(line@, selector@.skip(i as int)),
        decreases selector.len() - i,
    {
        let ghost rest = selector@.skip(i as int);
        proof {
            assert(rest[0] == selector@[i as int]);
            assert(rest.drop_first() =~= selector@.skip(i + 1));
        }
        let rg = selector[i];
        let lo = if rg.start < n {
            rg.start
        } else {
            n
        };
        let hi = if rg.end < n {
            rg.end
        } else {
            n
        };
        let ghost base = out@;
        if lo < hi {
            let mut j = lo;
            while j < hi
                invariant
                    lo <= j <= hi <= n == line@.len(),
                    out@ == base + line@.subrange(lo as int, j as int),
                decreases hi - j,
            {
                let b = line[j];
                out.push(b);
                proof {
                    assert(base + line@.subrange(lo as int, j + 1) =~= (base + line@.subrange(
                        lo as int,
                        j as int,
                    )).push(line@[j as int]));
                }
                j = j + 1;
            }
            proof {
                assert(clip_slice(line@, rg) =~= line@.subrange(lo as int, hi as int));
            }
        } else {
            proof {
                assert(clip_slice(line@, rg) =~= Seq::<u8>::empty());
                assert(out@ =~= base + clip_slice(line@, rg));
            }
        }
        proof {
            assert(out@ =~= base + clip_slice(line@, rg));
            assert(base + (clip_slice(line@, rg) + select_units(line@, selector@.skip(i + 1)))
                =~= (base + clip_slice(line@, rg)) + select_units(line@, selector@.skip(i + 1)));
        }
        i = i + 1;
    }
    proof {
        assert(selector@.skip(selector.len() as int) =~= Seq::<IndexRange>::empty());
        assert(out@ + Seq::<u8>::empty() =~= out@);
    }
    out
}

/// Selects the character ranges of `line`, in selector order, clipped to
/// its length in characters, concatenated with no separator. Range
/// boundaries never split a multi-byte character.
pub fn extract_chars(line: &str, selector: &Selector) -> (r: String)
    ensures
        r@ == select_units(line@, selector@),
{
    let n = line.unicode_len();
    let mut out = String::new();
    proof {
        assert(selector@.skip(0) =~= selector@);
        assert(out@ + select_units(line@, selector@) =~= select_units(line@, selector@));
    }
    let mut i: usize = 0;
    while i < selector.len()
        invariant
            i <= selector.len(),
            n == line@.len(),
            select_units(line@, selector@) == out@ + select_units(line@, selector@.skip(i as int)),
        decreases selector.len() - i,
    {
        let ghost rest = selector@.skip(i as int);
        proof {
            assert(rest[0] == selector@[i as int]);
            assert(rest.drop_first() =~= selector@.skip(i + 1));
        }
        let rg = selector[i];
        let lo = if rg.start < n {
            rg.start
        } else {
            n
        };
        let hi = if rg.end < n {
            rg.end
        } else {
            n
        };
        let ghost base = out@;
        if lo < hi {
            let piece = line.substring_char(lo, hi);
            out.append(piece);
            proof {
                assert(clip_slice(line@, rg) =~= line@.subrange(lo as int, hi as int));
            }
        } else {
            proof {
                assert(clip_slice(line@, rg) =~= Seq::<char>::empty());
            }
        }
        proof {
            assert(out@ =~= base + clip_slice(line@, rg));
            assert(base + (clip_slice(line@, rg) + select_units(line@, selector@.skip(i + 1)))
                =~= (base + clip_slice(line@, rg)) + select_units(line@, selector@.skip(i + 1)));
        }
        i = i + 1;
    }
    proof {
        assert(selector@.skip(selector.len() as int) =~= Seq::<IndexRange>::empty());
        assert(out@ + Seq::<char>::empty() =~= out@);
    }
    out
}

/// Selects whole tokens by position, in selector order, clipped to the
/// token count.
fn select_tokens(tokens: &Vec<String>, selector: &Selector) -> (r: Vec<String>)
    ensures
        r.deep_view() == select_units(tokens.deep_view(), selector@),
{
    let n = tokens.len();
    let ghost ts = tokens.deep_view();
    let mut out: Vec<String> = Vec::new();
    proof {
        assert(selector@.skip(0) =~= selector@);
        assert(ts.len() == n);
        assert(out.deep_view() + select_units(ts, selector@) =~= select_units(ts, selector@));
    }
    let mut i: usize = 0;
    while i < selector.len()
        invariant
            i <= selector.len(),
            ts == tokens.deep_view(),
            n == ts.len() == tokens.len(),
            select_units(ts, selector@) == out.deep_view() + select_units(ts, selector@.skip(
                i as int,
            )),
        decreases selector.len() - i,
    {
        let ghost rest = selector@.skip(i as int);
        proof {
            assert(rest[0] == selector@[i as int]);
            assert(rest.drop_first() =~= selector@.skip(i + 1));
        }
        let rg = selector[i];
        let lo = if rg.start < n {
            rg.start
        } else {
            n
        };
        let hi = if rg.end < n {
            rg.end
        } else {
            n
        };
        let ghost base = out.deep_view();
        if lo < hi {
            let mut j = lo;
            while j < hi
                invariant
                    lo <= j <= hi <= n == ts.len() == tokens.len(),
                    ts == tokens.deep_view(),
                    out.deep_view() == base + ts.subrange(lo as int, j as int),
                decreases hi - j,
            {
                let tok = tokens[j].clone();
                out.push(tok);
                proof {
                    assert(out.deep_view() =~= (base + ts.subrange(lo as int, j as int)).push(
                        ts[j as int],
                    ));
                    assert(base + ts.subrange(lo as int, j + 1) =~= (base + ts.subrange(
                        lo as int,
                        j as int,
                    )).push(ts[j as int]));
                }
                j = j + 1;
            }
            proof {
                assert(clip_slice(ts, rg) =~= ts.subrange(lo as int, hi as int));
            }
        } else {
            proof {
                assert(clip_slice(ts, rg) =~= Seq::<Seq<char>>::empty());
            }
        }
        proof {
            assert(out.deep_view() =~= base + clip_slice(ts, rg));
            assert(base + (clip_slice(ts, rg) + select_units(ts, selector@.skip(i + 1))) =~= (base
                + clip_slice(ts, rg)) + select_units(ts, selector@.skip(i + 1)));
        }
        i = i + 1;
    }
    proof {
        assert(selector@.skip(selector.len() as int) =~= Seq::<IndexRange>::empty());
        assert(out.deep_view() + Seq::<Seq<char>>::empty() =~= out.deep_view());
    }
    out
}

/// Splits `line` on the delimiter, selects whole fields by position, and
/// re-joins them with the same delimiter. A line without the delimiter is
/// returned unchanged, whatever the selector.
pub fn extract_fields(line: &str, selector: &Selector, delimiter: char) -> (r: String)
    ensures
        r@ == fields_spec(line@, selector@, delimiter),
        !line@.contains(delimiter) ==> r@ == line@,
{
    if !str_contains_char(line, delimiter) {
        return line.to_owned();
    }
    let tokens = split_str(line, delimiter);
    let selected = select_tokens(&tokens, selector);
    join_tokens(&selected, delimiter)
}

/// At the byte level too, field extraction from a valid line that never
/// holds the delimiter yields exactly the original bytes, whatever the
/// selector.
pub proof fn lemma_extract_line_fields_noop(line: Seq<u8>, rs: Seq<IndexRange>, d: char)
    requires
        valid_utf8(line),
        !decode_utf8(line).contains(d),
    ensures
        encode_utf8(fields_spec(decode_utf8(line), rs, d)) == line,
{
    lemma_fields_no_delim(decode_utf8(line), rs, d);
    vstd::utf8::decode_utf8_encode_utf8(line);
}

/// Settles which of the three mutually exclusive range arguments was
/// given: exactly one must be, and it fixes the mode and the selector.
pub fn select_mode(
    bytes_range: Option<Selector>,
    chars_range: Option<Selector>,
    field_range: Option<Selector>,
) -> (r: Result<(Mode, Selector), String>)
    ensures
        match (bytes_range, chars_range, field_range) {
            (Some(v), None, None) => r == Ok::<(Mode, Selector), String>((Mode::Bytes, v)),
            (None, Some(v), None) => r == Ok::<(Mode, Selector), String>((Mode::Chars, v)),
            (None, None, Some(v)) => r == Ok::<(Mode, Selector), String>((Mode::Fields, v)),
            _ => r matches Err(m) && m@ == "Must have --fields, --bytes, or --chars"@,
        },
{
    match (bytes_range, chars_range, field_range) {
        (Some(v), None, None) => Ok((Mode::Bytes, v)),
        (None, Some(v), None) => Ok((Mode::Chars, v)),
        (None, None, Some(v)) => Ok((Mode::Fields, v)),
        _ => Err("Must have --fields, --bytes, or --chars".to_owned()),
    }
}

/// Relies on `std::str::from_utf8`: it succeeds exactly on the byte
/// strings that are valid UTF-8, and a `str`'s characters are the decoding
/// of its bytes.
#[verifier::external_body]
fn utf8_to_str<'a>(v: &'a Vec<u8>) -> (r: Option<&'a str>)
    ensures
        r is Some <==> valid_utf8(v@),
        r matches Some(s) ==> s@ == decode_utf8(v@),
{
    std::str::from_utf8(v.as_slice()).ok()
}

/// Relies on `str::as_bytes`: a `str`'s bytes are the UTF-8 encoding of
/// its characters.
#[verifier::external_body]
fn str_to_bytes(s: &str) -> (r: Vec<u8>)
    ensures
        r@ == encode_utf8(s@),
{
    s.as_bytes().to_vec()
}

/// Applies a parsed selector to one line, in the given mode. Bytes mode
/// never fails; character and field modes decode the line first and fail
/// closed, reporting a line that is not valid text instead of truncating
/// it.
pub fn extract_line(line: &Vec<u8>, selector: &Selector, mode: Mode, delimiter: char) -> (r: Result<
    Vec<u8>,
    ExtractError,
>)
    ensures
        mode == Mode::Bytes ==> (r matches Ok(v) && v@ == select_units(line@, selector@)),
        mode != Mode::Bytes && !valid_utf8(line@) ==> r == Err::<Vec<u8>, ExtractError>(
            ExtractError::DecodingError,
        ),
        mode == Mode::Chars && valid_utf8(line@) ==> (r matches Ok(v) && v@ == encode_utf8(
            select_units(decode_utf8(line@), selector@),
        )),
        mode == Mode::Fields && valid_utf8(line@) ==> (r matches Ok(v) && v@ == encode_utf8(
            fields_spec(decode_utf8(line@), selector@, delimiter),
        )),
{
    match mode {
        Mode::Bytes => Ok(extract_bytes(line, selector)),
        Mode::Chars => match utf8_to_str(line) {
            None => Err(ExtractError::DecodingError),
            Some(s) => {
                let picked = extract_chars(s, selector);
                Ok(str_to_bytes(picked.as_str()))
            },
        },
        Mode::Fields => match utf8_to_str(line) {
            None => Err(ExtractError::DecodingError),
            Some(s) => {
                let picked = extract_fields(s, selector, delimiter);
                Ok(str_to_bytes(picked.as_str()))
            },
        },
    }
}

} // verus!
