use textutils::extract::{
    extract_bytes, extract_chars, extract_fields, extract_line, select_mode, ExtractError, Mode,
};
use textutils::selector::{parse_selector, IndexRange, Selector};

fn ir(start: usize, end: usize) -> IndexRange {
    IndexRange { start, end }
}

#[test]
fn fields_mode_is_a_no_op_without_the_delimiter() {
    let lines = ["hello world", "", "a;b;c", "plain prose, almost"];
    let selectors = ["1", "2-3", "15,19-20", "1,1,1"];
    for line in lines {
        for sel in selectors {
            let sel = parse_selector(sel).unwrap();
            assert_eq!(extract_fields(line, &sel, '\t'), line);
        }
    }
}

#[test]
fn ranges_are_clipped_to_the_line_length() {
    let sel = vec![ir(0, 100)];
    assert_eq!(extract_chars("abc", &sel), "abc");
    assert_eq!(extract_bytes(&b"abc".to_vec(), &sel), b"abc".to_vec());
    let sel = parse_selector("2-100").unwrap();
    assert_eq!(extract_chars("abc", &sel), "bc");
    // a range wholly past the end contributes nothing
    let sel = parse_selector("9,2").unwrap();
    assert_eq!(extract_chars("abc", &sel), "b");
}

#[test]
fn fields_round_trip() {
    let sel = parse_selector("1,3").unwrap();
    let out = extract_line(&b"a,b,c".to_vec(), &sel, Mode::Fields, ',');
    assert_eq!(out, Ok(b"a,c".to_vec()));
}

#[test]
fn character_ranges_respect_character_boundaries() {
    let sel = parse_selector("2-3").unwrap();
    assert_eq!(extract_chars("h\u{e9}llo", &sel), "\u{e9}l");
    let out = extract_line(&"héllo".as_bytes().to_vec(), &sel, Mode::Chars, ',');
    assert_eq!(out, Ok("él".as_bytes().to_vec()));
}

#[test]
fn byte_ranges_may_split_a_character() {
    let sel = vec![ir(0, 1)];
    let out = extract_line(&"é".as_bytes().to_vec(), &sel, Mode::Bytes, ',');
    assert_eq!(out, Ok(vec![0xC3u8]));
}

#[test]
fn short_field_lines_give_empty_contributions() {
    let sel = parse_selector("15,19-20").unwrap();
    assert_eq!(sel, vec![ir(14, 15), ir(18, 20)]);
    // fewer than 15 fields: every range is clipped away
    assert_eq!(extract_fields("a,b,c,d,e", &sel, ','), "");
    // 19 fields: the 15th is present, and of 19-20 only the 19th
    let line = "f1,f2,f3,f4,f5,f6,f7,f8,f9,f10,f11,f12,f13,f14,f15,f16,f17,f18,f19";
    assert_eq!(extract_fields(line, &sel, ','), "f15,f19");
}

#[test]
fn selected_fields_are_rejoined_with_the_delimiter() {
    let sel = parse_selector("3,1-2").unwrap();
    assert_eq!(extract_fields("a\tb\tc", &sel, '\t'), "c\ta\tb");
    assert_eq!(extract_fields("x:y:z", &sel, ':'), "z:x:y");
}

#[test]
fn invalid_text_fails_closed_in_character_and_field_modes() {
    let sel = parse_selector("1").unwrap();
    let bad = vec![0x66u8, 0xFF, 0x67];
    assert_eq!(
        extract_line(&bad, &sel, Mode::Chars, ','),
        Err(ExtractError::DecodingError)
    );
    assert_eq!(
        extract_line(&bad, &sel, Mode::Fields, ','),
        Err(ExtractError::DecodingError)
    );
    // bytes mode never decodes
    assert_eq!(extract_line(&bad, &sel, Mode::Bytes, ','), Ok(vec![0x66u8]));
}

#[test]
fn empty_lines_give_empty_output_in_every_mode() {
    let sel = parse_selector("1,3-5").unwrap();
    let empty: Vec<u8> = Vec::new();
    assert_eq!(extract_line(&empty, &sel, Mode::Bytes, ','), Ok(Vec::new()));
    assert_eq!(extract_line(&empty, &sel, Mode::Chars, ','), Ok(Vec::new()));
    assert_eq!(extract_line(&empty, &sel, Mode::Fields, ','), Ok(Vec::new()));
}

#[test]
fn selector_order_drives_output_order() {
    let sel = parse_selector("3,1").unwrap();
    assert_eq!(extract_chars("abc", &sel), "ca");
    let sel = parse_selector("2,2").unwrap();
    assert_eq!(extract_chars("abc", &sel), "bb");
}

#[test]
fn exactly_one_range_argument_must_be_given() {
    let sel: Selector = vec![ir(0, 1)];
    assert_eq!(
        select_mode(Some(sel.clone()), None, None),
        Ok((Mode::Bytes, sel.clone()))
    );
    assert_eq!(
        select_mode(None, Some(sel.clone()), None),
        Ok((Mode::Chars, sel.clone()))
    );
    assert_eq!(
        select_mode(None, None, Some(sel.clone())),
        Ok((Mode::Fields, sel.clone()))
    );
    assert_eq!(
        select_mode(None, None, None),
        Err("Must have --fields, --bytes, or --chars".to_string())
    );
    assert_eq!(
        select_mode(Some(sel.clone()), Some(sel.clone()), None),
        Err("Must have --fields, --bytes, or --chars".to_string())
    );
}
