//! The grouping core of a uniq-style tool: consecutive lines that agree
//! once trailing whitespace is dropped form one group, reported as its
//! length and its first line. Reading and printing stay with the caller.

use vstd::prelude::*;

verus! {

use crate::text::trim_end_chars;
use crate::text::trim_end_eq;

/// The groups of consecutive trim-equal lines: each group's length and its
/// first line, in input order.
pub open spec fn uniq_groups(ls: Seq<Seq<char>>) -> Seq<(int, Seq<char>)>
    decreases ls.len(),
{
    if ls.len() == 0 {
        Seq::empty()
    } else {
        let g = uniq_groups(ls.drop_last());
        let x = ls.last();
        if g.len() > 0 && trim_end_chars(x) == trim_end_chars(g.last().1) {
            g.update(g.len() - 1, (g.last().0 + 1, g.last().1))
        } else {
            g.push((1, x))
        }
    }
}

/// The meaning of a concrete list of groups.
pub open spec fn groups_abs(r: Seq<(u64, String)>) -> Seq<(int, Seq<char>)> {
    Seq::new(r.len(), |k: int| (r[k].0 as int, r[k].1@))
}

/// Groups consecutive lines that agree once trailing whitespace is
/// dropped, yielding each group's length and first line in input order.
pub fn uniq_counts(lines: &Vec<String>) -> (r: Vec<(u64, String)>)
    ensures
        groups_abs(r@) == uniq_groups(lines.deep_view()),
{
    let ghost dv = lines.deep_view();
    let mut out: Vec<(u64, String)> = Vec::new();
    let mut count: u64 = 0;
    let mut pre: String = String::new();
    proof {
        assert(dv.take(0) =~= Seq::<Seq<char>>::empty());
        assert(groups_abs(out@) =~= Seq::<(int, Seq<char>)>::empty());
    }
    let mut i: usize = 0;
    while i < lines.len()
        invariant
            i <= lines.len(),
            dv == lines.deep_view(),
            dv.len() == lines.len(),
            count as int <= i,
            count == 0 ==> i == 0 && out@.len() == 0 && uniq_groups(dv.take(i as int))
                =~= Seq::<(int, Seq<char>)>::empty(),
            count > 0 ==> uniq_groups(dv.take(i as int)) == groups_abs(out@).push(
                (count as int, pre@),
            ),
        decreases lines.len() - i,
    {
        proof {
            assert(dv.take(i + 1).drop_last() =~= dv.take(i as int));
            assert(dv.take(i + 1).last() == dv[i as int]);
            assert(dv[i as int] == lines@[i as int]@);
        }
        if count == 0 {
            pre = lines[i].clone();
            count = 1;
            proof {
                assert(uniq_groups(dv.take(i + 1)) =~= Seq::<(int, Seq<char>)>::empty().push(
                    (1, dv[i as int]),
                ));
                assert(groups_abs(out@).push((1int, pre@)) =~= uniq_groups(dv.take(i + 1)));
            }
        } else if trim_end_eq(lines[i].as_str(), pre.as_str()) {
            proof {
                let g = uniq_groups(dv.take(i as int));
                assert(g.last() == (count as int, pre@));
                assert(trim_end_chars(dv[i as int]) == trim_end_chars(g.last().1));
                assert(uniq_groups(dv.take(i + 1)) == g.update(g.len() - 1, (
                    count as int + 1,
                    pre@,
                )));
                assert(g.update(g.len() - 1, (count as int + 1, pre@)) =~= groups_abs(out@).push(
                    (count as int + 1, pre@),
                ));
            }
            count = count + 1;
        } else {
            proof {
                let g = uniq_groups(dv.take(i as int));
                assert(g.last() == (count as int, pre@));
                assert(trim_end_chars(dv[i as int]) != trim_end_chars(g.last().1));
                assert(uniq_groups(dv.take(i + 1)) == g.push((1, dv[i as int])));
            }
            let ghost old_out = out@;
            let done = (count, pre);
            out.push(done);
            pre = lines[i].clone();
            count = 1;
            proof {
                assert(groups_abs(out@) =~= groups_abs(old_out).push(
                    (out@[old_out.len() as int].0 as int, out@[old_out.len() as int].1@),
                ));
                assert(groups_abs(out@).push((1int, pre@)) =~= uniq_groups(dv.take(i + 1)));
            }
        }
        i = i + 1;
    }
    proof {
        assert(dv.take(lines.len() as int) =~= dv);
    }
    if count > 0 {
        let ghost old_out = out@;
        let done = (count, pre);
        out.push(done);
        proof {
            assert(groups_abs(out@) =~= groups_abs(old_out).push((count as int, out@[old_out.len() as int].1@)));
        }
    } else {
        proof {
            assert(groups_abs(out@) =~= uniq_groups(dv));
        }
    }
    out
}

} // verus!
