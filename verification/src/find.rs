//! The decision core of a file-finding tool: reading an entry-type code,
//! and deciding from an entry's plain attributes whether it is kept. The
//! walking of directories and the matching of name patterns stay with the
//! caller, which hands their outcomes in as plain values.

use vstd::prelude::*;

verus! {

use vstd::string::StrSliceExecFns;
use vstd::string::StringExecFns;

/// What a directory entry can be.
#[derive(Debug, Clone, Copy, PartialEq, Eq, Structural)]
pub enum EntryType {
    Dir,
    File,
    Link,
}

/// The entry type a one-letter code names, upper or lower case.
pub open spec fn entry_code(s: Seq<char>) -> Option<EntryType> {
    if s.len() == 1 && (s[0] == 'd' || s[0] == 'D') {
        Some(EntryType::Dir)
    } else if s.len() == 1 && (s[0] == 'f' || s[0] == 'F') {
        Some(EntryType::File)
    } else if s.len() == 1 && (s[0] == 'l' || s[0] == 'L') {
        Some(EntryType::Link)
    } else {
        None
    }
}

impl EntryType {
    /// Reads an entry type from its code: `d`, `f` or `l`, in either case.
    pub fn from_str(s: &str) -> (r: Result<EntryType, String>)
        ensures
            entry_code(s@) matches Some(t) ==> r == Ok::<EntryType, String>(t),
            entry_code(s@) is None ==> (r matches Err(m) && m@ == "Invalid entry type: "@ + s@),
    {
        let n = s.unicode_len();
        if n == 1 {
            let c = s.get_char(0);
            if c == 'd' || c == 'D' {
                return Ok(EntryType::Dir);
            }
            if c == 'f' || c == 'F' {
                return Ok(EntryType::File);
            }
            if c == 'l' || c == 'L' {
                return Ok(EntryType::Link);
            }
        }
        let mut m = String::new();
        m.append("Invalid entry type: ");
        m.append(s);
        proof {
            assert(m@ =~= "Invalid entry type: "@ + s@);
        }
        Err(m)
    }
}

/// Reads an entry type from its one-letter code.
pub fn parse_entry_type(s: &str) -> (r: Result<EntryType, String>)
    ensures
        entry_code(s@) matches Some(t) ==> r == Ok::<EntryType, String>(t),
        entry_code(s@) is None ==> (r matches Err(m) && m@ == "Invalid entry type: "@ + s@),
{
    EntryType::from_str(s)
}

/// Whether an entry with the given attributes is of type `t`.
pub open spec fn type_matches(t: EntryType, is_dir: bool, is_file: bool, is_symlink: bool) -> bool {
    match t {
        EntryType::Dir => is_dir,
        EntryType::File => is_file,
        EntryType::Link => is_symlink,
    }
}

/// Whether an entry passes both filters: its type is among the wanted
/// types (or none were given), and its name was selected by a pattern (or
/// no patterns were given).
pub fn keep_entry(
    types: &Vec<EntryType>,
    is_dir: bool,
    is_file: bool,
    is_symlink: bool,
    names_empty: bool,
    name_matched: bool,
) -> (r: bool)
    ensures
        r == ((types@.len() == 0 || exists|k: int|
            0 <= k < types@.len() && type_matches(#[trigger] types@[k], is_dir, is_file, is_symlink))
            && (names_empty || name_matched)),
{
    let mut type_ok = types.len() == 0;
    let mut i: usize = 0;
    while i < types.len()
        invariant
            i <= types@.len(),
            type_ok == (types@.len() == 0 || exists|k: int|
                0 <= k < i && type_matches(#[trigger] types@[k], is_dir, is_file, is_symlink)),
        decreases types.len() - i,
    {
        let t = types[i];
        let hit = match t {
            EntryType::Dir => is_dir,
            EntryType::File => is_file,
            EntryType::Link => is_symlink,
        };
        if hit {
            proof {
                assert(type_matches(types@[i as int], is_dir, is_file, is_symlink));
            }
            type_ok = true;
        }
        i = i + 1;
    }
    type_ok && (names_empty || name_matched)
}

} // verus!
