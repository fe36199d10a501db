use textutils::find::{keep_entry, parse_entry_type, EntryType};
use textutils::head::{handle_args, head_bytes, head_lines};
use textutils::numeral::{pad_left, parse_decimal, usize_to_string};
use textutils::rat::number_lines;
use textutils::text::join_words;
use textutils::uniq::uniq_counts;
use textutils::wc::{count, info_line, normalize_flags, FileInfo};

#[test]
fn test_count() {
    let text = "I don't want the world. I just want your half.\r\n";
    let info = count(text);
    let expects = FileInfo {
        lines: 1,
        words: 10,
        chars: 48,
        bytes: 48,
    };
    assert_eq!(info, expects);
}

#[test]
fn count_empty_and_multiline_text() {
    assert_eq!(
        count(""),
        FileInfo { lines: 0, words: 0, bytes: 0, chars: 0 }
    );
    let info = count("a b  c\nd\n");
    assert_eq!(info.lines, 2);
    assert_eq!(info.words, 4);
    assert_eq!(info.bytes, 9);
    assert_eq!(info.chars, 9);
    // an unterminated final stretch still counts as a line
    assert_eq!(count("one\ntwo").lines, 2);
    // multi-byte characters: one char, two bytes
    let info = count("\u{e9}\n");
    assert_eq!(info.chars, 2);
    assert_eq!(info.bytes, 3);
}

#[test]
fn normalize_flags_defaults_to_line_word_byte() {
    assert_eq!(
        normalize_flags(false, false, false, false),
        (true, true, true, false)
    );
    assert_eq!(
        normalize_flags(false, false, false, true),
        (false, false, false, true)
    );
    assert_eq!(
        normalize_flags(true, false, true, false),
        (true, false, true, false)
    );
}

#[test]
fn info_line_pads_each_count_to_eight() {
    let info = FileInfo { lines: 1, words: 10, bytes: 48, chars: 48 };
    assert_eq!(
        info_line(&info, "half.txt", true, true, true, false),
        "       1      10      48 half.txt"
    );
    // standard input gets no name
    assert_eq!(
        info_line(&info, "-", true, false, false, false),
        "       1"
    );
}

#[test]
fn entry_types_read_one_letter_codes_in_either_case() {
    assert_eq!(parse_entry_type("d"), Ok(EntryType::Dir));
    assert_eq!(parse_entry_type("D"), Ok(EntryType::Dir));
    assert_eq!(parse_entry_type("f"), Ok(EntryType::File));
    assert_eq!(parse_entry_type("F"), Ok(EntryType::File));
    assert_eq!(parse_entry_type("l"), Ok(EntryType::Link));
    assert_eq!(parse_entry_type("L"), Ok(EntryType::Link));
    assert_eq!(
        parse_entry_type("x"),
        Err("Invalid entry type: x".to_string())
    );
    assert_eq!(
        parse_entry_type("dir"),
        Err("Invalid entry type: dir".to_string())
    );
}

#[test]
fn entries_pass_when_no_filter_or_some_filter_agrees() {
    // no type filter, no name filter: everything passes
    assert!(keep_entry(&vec![], true, false, false, true, false));
    // a type filter must agree
    assert!(keep_entry(&vec![EntryType::Dir], true, false, false, true, false));
    assert!(!keep_entry(&vec![EntryType::Dir], false, true, false, true, false));
    assert!(keep_entry(
        &vec![EntryType::File, EntryType::Link],
        false,
        false,
        true,
        true,
        false
    ));
    // a name filter must have matched
    assert!(keep_entry(&vec![], false, true, false, false, true));
    assert!(!keep_entry(&vec![], false, true, false, false, false));
    // both filters apply at once
    assert!(!keep_entry(&vec![EntryType::File], false, true, false, false, false));
    assert!(keep_entry(&vec![EntryType::File], false, true, false, false, true));
}

#[test]
fn head_argument_validation() {
    assert_eq!(handle_args(10, None), Ok(()));
    assert_eq!(handle_args(1, Some(3)), Ok(()));
    assert_eq!(
        handle_args(10, Some(0)),
        Err("illegal bytes value Some(0)".to_string())
    );
    assert_eq!(
        handle_args(0, None),
        Err("illegal lines value 0".to_string())
    );
    // the byte check comes first
    assert_eq!(
        handle_args(0, Some(0)),
        Err("illegal bytes value Some(0)".to_string())
    );
}

#[test]
fn head_takes_prefixes_by_byte_and_by_line() {
    assert_eq!(head_bytes(&b"abcdef".to_vec(), 4), b"abcd".to_vec());
    assert_eq!(head_bytes(&b"ab".to_vec(), 4), b"ab".to_vec());
    assert_eq!(head_bytes(&b"ab".to_vec(), 0), Vec::<u8>::new());
    assert_eq!(head_lines("a\nb\nc\n", 2), "a\nb\n");
    assert_eq!(head_lines("a\nb", 5), "a\nb");
    assert_eq!(head_lines("a\nb\nc\n", 0), "");
    assert_eq!(head_lines("", 3), "");
}

#[test]
fn uniq_groups_consecutive_lines_up_to_trailing_whitespace() {
    let lines: Vec<String> = ["a\n", "a\n", "b\n", "a\n"]
        .iter()
        .map(|s| s.to_string())
        .collect();
    assert_eq!(
        uniq_counts(&lines),
        vec![
            (2, "a\n".to_string()),
            (1, "b\n".to_string()),
            (1, "a\n".to_string())
        ]
    );
    // trailing whitespace does not separate a group, and the first line
    // of the group is the one reported
    let lines: Vec<String> = ["x \n", "x\n", "y"].iter().map(|s| s.to_string()).collect();
    assert_eq!(
        uniq_counts(&lines),
        vec![(2, "x \n".to_string()), (1, "y".to_string())]
    );
    assert_eq!(uniq_counts(&Vec::new()), Vec::new());
}

#[test]
fn cat_numbering_modes() {
    let lines: Vec<String> = ["hello", "", "world"].iter().map(|s| s.to_string()).collect();
    assert_eq!(
        number_lines(&lines, true, false),
        vec![
            "     1\thello".to_string(),
            "     2\t".to_string(),
            "     3\tworld".to_string()
        ]
    );
    assert_eq!(
        number_lines(&lines, false, true),
        vec![
            "     1\thello".to_string(),
            "".to_string(),
            "     2\tworld".to_string()
        ]
    );
    assert_eq!(number_lines(&lines, false, false), lines);
}

#[test]
fn echo_joins_words_with_spaces() {
    let words: Vec<String> = ["hello", "world"].iter().map(|s| s.to_string()).collect();
    assert_eq!(join_words(&words, false), "hello world\n");
    assert_eq!(join_words(&words, true), "hello world");
    assert_eq!(join_words(&Vec::new(), true), "");
    assert_eq!(join_words(&Vec::new(), false), "\n");
}

#[test]
fn decimal_tokens_and_numerals() {
    assert_eq!(parse_decimal("007"), Some(7));
    assert_eq!(parse_decimal("0"), Some(0));
    assert_eq!(parse_decimal(""), None);
    assert_eq!(parse_decimal("12a"), None);
    assert_eq!(parse_decimal("18446744073709551615"), Some(usize::MAX));
    assert_eq!(parse_decimal("18446744073709551616"), None);
    assert_eq!(usize_to_string(0), "0");
    assert_eq!(usize_to_string(907), "907");
    assert_eq!(pad_left(42, 6), "    42");
    assert_eq!(pad_left(1234567, 6), "1234567");
}
