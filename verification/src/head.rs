//! The compute core of a head-style tool: validating its two count
//! arguments, and taking a prefix of a body of text by byte count or by
//! line count. Reading and printing stay with the caller.

use vstd::prelude::*;

verus! {

use vstd::string::StrSliceExecFns;

/// Checks the line and byte counts a caller asked for: a byte count of
/// zero, then a line count of zero, are rejected with the message the
/// tool prints.
pub fn handle_args(lines: usize, bytes: Option<usize>) -> (r: Result<(), String>)
    ensures
        bytes == Some(0usize) ==> (r matches Err(m) && m@ == "illegal bytes value Some(0)"@),
        bytes != Some(0usize) && lines == 0 ==> (r matches Err(m) && m@
            == "illegal lines value 0"@),
        bytes != Some(0usize) && lines != 0 ==> r == Ok::<(), String>(()),
{
    match bytes {
        Some(n) => {
            if n == 0 {
                return Err("illegal bytes value Some(0)".to_owned());
            }
        },
        None => {},
    }
    if lines == 0 {
        return Err("illegal lines value 0".to_owned());
    }
    Ok(())
}

/// The first `n` bytes of `data`, or all of it when it is shorter.
pub fn head_bytes(data: &Vec<u8>, n: usize) -> (r: Vec<u8>)
    ensures
        r@ == data@.take(if n as int <= data@.len() {
            n as int
        } else {
            data@.len() as int
        }),
{
    let m = if n < data.len() {
        n
    } else {
        data.len()
    };
    let mut out: Vec<u8> = Vec::new();
    let mut i: usize = 0;
    while i < m
        invariant
            i <= m <= data@.len(),
            out@ == data@.take(i as int),
        decreases m - i,
    {
        let b = data[i];
        out.push(b);
        proof {
            assert(data@.take(i + 1) =~= data@.take(i as int).push(data@[i as int]));
        }
        i = i + 1;
    }
    out
}

/// The character position just past the `k`-th line of `s`, counting from
/// position `i`: lines end at a newline, and a short text ends early.
pub open spec fn head_end(s: Seq<char>, i: int, k: nat) -> int
    decreases s.len() - i,
{
    if i < 0 || i >= s.len() || k == 0 {
        i
    } else if s[i] == '\n' {
        if k == 1 {
            i + 1
        } else {
            head_end(s, i + 1, (k - 1) as nat)
        }
    } else {
        head_end(s, i + 1, k)
    }
}

/// The first `n` lines of `text`, each with its newline; all of it when
/// it holds fewer lines.
pub fn head_lines(text: &str, n: usize) -> (r: String)
    ensures
        r@ == text@.take(head_end(text@, 0, n as nat)),
{
    let len = text.unicode_len();
    let mut i: usize = 0;
    let mut k = n;
    while i < len && k > 0
        invariant
            i <= len == text@.len(),
            head_end(text@, 0, n as nat) == head_end(text@, i as int, k as nat),
        decreases len - i,
    {
        let c = text.get_char(i);
        if c == '\n' {
            k = k - 1;
        }
        i = i + 1;
    }
    let out = text.substring_char(0, i);
    out.to_owned()
}

} // verus!
