//! The numbering core of a cat-style tool: given the lines of a file (with
//! line endings already stripped), produce the lines to print, numbering
//! all of them, only the non-blank ones, or none. Reading and printing
//! stay with the caller.

use vstd::prelude::*;

verus! {

use vstd::string::StrSliceExecFns;
use vstd::string::StringExecFns;

use crate::numeral::pad_left;
use crate::numeral::pad_spec;

/// How many of the first `j` lines are non-blank.
pub open spec fn nonblank_before(ls: Seq<Seq<char>>, j: int) -> nat
    decreases j,
{
    if j <= 0 || j > ls.len() {
        0
    } else {
        nonblank_before(ls, j - 1) + if ls[j - 1].len() > 0 {
            1nat
        } else {
            0nat
        }
    }
}

/// The line to print for input line `k`: numbered in a six-wide field and
/// a tab when all lines are numbered, likewise but counting only non-blank
/// lines when only those are numbered (a blank line prints empty), and the
/// line itself otherwise.
pub open spec fn rat_line(
    ls: Seq<Seq<char>>,
    k: int,
    number_lines: bool,
    number_nonblank: bool,
) -> Seq<char> {
    if number_lines {
        pad_spec((k + 1) as nat, 6) + seq!['\t'] + ls[k]
    } else if number_nonblank {
        if ls[k].len() == 0 {
            Seq::empty()
        } else {
            pad_spec(nonblank_before(ls, k + 1), 6) + seq!['\t'] + ls[k]
        }
    } else {
        ls[k]
    }
}

/// The lines a cat-style tool prints for `lines`, under the two numbering
/// switches.
pub fn number_lines(lines: &Vec<String>, number_all: bool, number_nonblank: bool) -> (r: Vec<
    String,
>)
    ensures
        r@.len() == lines@.len(),
        forall|k: int|
            0 <= k < r@.len() ==> r@[k]@ == rat_line(
                lines.deep_view(),
                k,
                number_all,
                number_nonblank,
            ),
{
    let ghost dv = lines.deep_view();
    let mut out: Vec<String> = Vec::new();
    let mut numbered: usize = 0;
    let mut i: usize = 0;
    while i < lines.len()
        invariant
            i <= lines.len(),
            dv == lines.deep_view(),
            dv.len() == lines.len(),
            numbered as int <= i,
            numbered as nat == nonblank_before(dv, i as int),
            out@.len() == i,
            forall|k: int|
                0 <= k < i ==> out@[k]@ == rat_line(dv, k, number_all, number_nonblank),
        decreases lines.len() - i,
    {
        proof {
            assert(dv[i as int] == lines@[i as int]@);
        }
        let empty_line = lines[i].as_str().unicode_len() == 0;
        if !empty_line {
            numbered = numbered + 1;
        }
        if number_all {
            let mut m = pad_left(i + 1, 6);
            m.append("\t");
            m.append(lines[i].as_str());
            proof {
                reveal_strlit("\t");
                assert(m@ =~= pad_spec((i + 1) as nat, 6) + seq!['\t'] + dv[i as int]);
            }
            out.push(m);
        } else if number_nonblank {
            if empty_line {
                out.push(String::new());
            } else {
                let mut m = pad_left(numbered, 6);
                m.append("\t");
                m.append(lines[i].as_str());
                proof {
                    reveal_strlit("\t");
                    assert(m@ =~= pad_spec(numbered as nat, 6) + seq!['\t'] + dv[i as int]);
                }
                out.push(m);
            }
        } else {
            out.push(lines[i].clone());
        }
        i = i + 1;
    }
    out
}

} // verus!
