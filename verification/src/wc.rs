//! Line, word, byte and character counting over a body of text, the core
//! of a word-count tool. A line is a stretch ended by a newline, plus a
//! final unterminated stretch if one remains; a word is a maximal run of
//! non-whitespace characters.

use vstd::prelude::*;

verus! {

use vstd::string::StrSliceExecFns;
use vstd::string::StringSliceAdditionalSpecFns;

use crate::numeral::pad_left;
use crate::numeral::pad_spec;
use crate::text::char_is_space;
use crate::text::is_space;

/// The counts of one body of text.
#[derive(Debug, Clone, Copy, PartialEq, Eq, Structural)]
pub struct FileInfo {
    pub lines: usize,
    pub words: usize,
    pub bytes: usize,
    pub chars: usize,
}

/// How often the character `c` occurs in `s`.
pub open spec fn count_char(s: Seq<char>, c: char) -> nat
    decreases s.len(),
{
    if s.len() == 0 {
        0
    } else {
        count_char(s.drop_last(), c) + if s.last() == c {
            1nat
        } else {
            0nat
        }
    }
}

/// A character occurs at most once per position.
pub proof fn lemma_count_char_le(s: Seq<char>, c: char)
    ensures
        count_char(s, c) <= s.len(),
    decreases s.len(),
{
    if s.len() > 0 {
        lemma_count_char_le(s.drop_last(), c);
    }
}

/// How many lines `s` holds: its newlines, plus a final stretch that no
/// newline ends.
pub open spec fn count_lines(s: Seq<char>) -> nat {
    count_char(s, '\n') + if s.len() > 0 && s.last() != '\n' {
        1nat
    } else {
        0nat
    }
}

/// The words of `s` from position `i` on, entering with `in_word` telling
/// whether position `i - 1` sat inside a word.
pub open spec fn words_from(s: Seq<char>, i: int, in_word: bool) -> nat
    decreases s.len() - i,
{
    if i < 0 || i >= s.len() {
        0
    } else {
        let sp = is_space(s[i]);
        (if !sp && !in_word {
            1nat
        } else {
            0nat
        }) + words_from(s, i + 1, !sp)
    }
}

/// How many maximal runs of non-whitespace characters `s` holds.
pub open spec fn count_words(s: Seq<char>) -> nat {
    words_from(s, 0, false)
}

/// Counts the lines, words, bytes and characters of `text`, as reading it
/// line by line and totalling would.
pub fn count(text: &str) -> (r: FileInfo)
    ensures
        r.lines == count_lines(text@),
        r.words == count_words(text@),
        r.bytes == text.spec_bytes().len() as usize,
        r.chars == text@.len(),
{
    let n = text.unicode_len();
    let bytes = text.len();

    let mut nl: usize = 0;
    let mut i: usize = 0;
    while i < n
        invariant
            i <= n == text@.len(),
            nl == count_char(text@.take(i as int), '\n'),
            nl <= i,
        decreases n - i,
    {
        let c = text.get_char(i);
        proof {
            assert(text@.take(i + 1).drop_last() =~= text@.take(i as int));
            assert(text@.take(i + 1).last() == text@[i as int]);
        }
        if c == '\n' {
            nl = nl + 1;
        }
        i = i + 1;
    }
    proof {
        assert(text@.take(n as int) =~= text@);
    }
    let lines = if n == 0 {
        0
    } else if text.get_char(n - 1) == '\n' {
        nl
    } else {
        proof {
            lemma_count_char_le(text@.drop_last(), '\n');
            assert(text@.drop_last() =~= text@.take(n - 1));
            assert(count_char(text@, '\n') == count_char(text@.drop_last(), '\n'));
        }
        nl + 1
    };

    let mut words: usize = 0;
    let mut in_word: bool = false;
    let mut j: usize = 0;
    while j < n
        invariant
            j <= n == text@.len(),
            words <= j,
            count_words(text@) == words + words_from(text@, j as int, in_word),
        decreases n - j,
    {
        let c = text.get_char(j);
        let sp = char_is_space(c);
        if !sp && !in_word {
            words = words + 1;
        }
        in_word = !sp;
        j = j + 1;
    }

    FileInfo { lines, words, bytes, chars: n }
}

/// What the report for one file shows: each requested count right-aligned
/// in an eight-wide field, in the order lines, words, bytes, characters,
/// then a space and the file's name unless it stands for standard input.
pub open spec fn info_line_spec(
    info: FileInfo,
    name: Seq<char>,
    lines: bool,
    words: bool,
    bytes: bool,
    chars: bool,
) -> Seq<char> {
    (if lines {
        pad_spec(info.lines as nat, 8)
    } else {
        Seq::empty()
    }) + (if words {
        pad_spec(info.words as nat, 8)
    } else {
        Seq::empty()
    }) + (if bytes {
        pad_spec(info.bytes as nat, 8)
    } else {
        Seq::empty()
    }) + (if chars {
        pad_spec(info.chars as nat, 8)
    } else {
        Seq::empty()
    }) + (if name == seq!['-'] {
        Seq::<char>::empty()
    } else {
        seq![' '] + name
    })
}

/// Renders the report line for one counted file.
pub fn info_line(
    info: &FileInfo,
    name: &str,
    lines: bool,
    words: bool,
    bytes: bool,
    chars: bool,
) -> (r: String)
    ensures
        r@ == info_line_spec(*info, name@, lines, words, bytes, chars),
{
    let mut out = String::new();
    if lines {
        let p = pad_left(info.lines, 8);
        out.append(p.as_str());
    }
    if words {
        let p = pad_left(info.words, 8);
        out.append(p.as_str());
    }
    if bytes {
        let p = pad_left(info.bytes, 8);
        out.append(p.as_str());
    }
    if chars {
        let p = pad_left(info.chars, 8);
        out.append(p.as_str());
    }
    let n = name.unicode_len();
    let dash = n == 1 && name.get_char(0) == '-';
    proof {
        assert(dash == (name@ =~= seq!['-']));
    }
    if !dash {
        out.append(" ");
        out.append(name);
        proof {
            reveal_strlit(" ");
        }
    }
    proof {
        assert(out@ =~= info_line_spec(*info, name@, lines, words, bytes, chars));
    }
    out
}

/// The flag defaulting of the word-count tool: when no count was asked
/// for, lines, words and bytes are shown.
pub fn normalize_flags(lines: bool, words: bool, bytes: bool, chars: bool) -> (r: (
    bool,
    bool,
    bool,
    bool,
))
    ensures
        (!lines && !words && !bytes && !chars) ==> r == (true, true, true, false),
        (lines || words || bytes || chars) ==> r == (lines, words, bytes, chars),
{
    if !lines && !words && !bytes && !chars {
        (true, true, true, false)
    } else {
        (lines, words, bytes, chars)
    }
}

} // verus!
