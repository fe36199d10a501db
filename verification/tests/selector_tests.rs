use textutils::selector::{parse_selector, IndexRange, ParseError};

fn rg(start: usize, end: usize) -> IndexRange {
    IndexRange { start, end }
}

#[test]
fn test_pos_parser() {
    //empty string should error
    assert!(parse_selector(" ").is_err());

    // Zero range is an error
    let res = parse_selector("0");
    assert!(res.is_err());
    assert_eq!(
        res.unwrap_err().message(),
        "Invalid number, must be greater than 0"
    );

    let res = parse_selector("0-1");
    assert!(res.is_err());
    assert_eq!(
        res.unwrap_err().message(),
        "Invalid range, start must be greater than 0"
    );

    let res = parse_selector("+1");
    assert!(res.is_err());
    assert_eq!(res.unwrap_err().message(), "Invalid number: +1");

    let res = parse_selector("+1-2");
    assert!(res.is_err());
    assert_eq!(res.unwrap_err().message(), "Invalid number: +1");

    let res = parse_selector("1-+2");
    assert!(res.is_err());
    assert_eq!(res.unwrap_err().message(), "Invalid number: +2");

    let res = parse_selector("a");
    assert!(res.is_err());
    assert_eq!(res.unwrap_err().message(), "Invalid number: a");

    let res = parse_selector("1,a");
    assert!(res.is_err());
    assert_eq!(res.unwrap_err().message(), "Invalid number: a");

    let res = parse_selector("1-a");
    assert!(res.is_err());
    assert_eq!(res.unwrap_err().message(), "Invalid number: a");

    let res = parse_selector("a-1");
    assert!(res.is_err());
    assert_eq!(res.unwrap_err().message(), "Invalid number: a");

    let res = parse_selector("-");
    assert!(res.is_err());

    let res = parse_selector(",");
    assert!(res.is_err());

    let res = parse_selector("1,");
    assert!(res.is_err());

    let res = parse_selector("1-");
    assert!(res.is_err());

    let res = parse_selector("1-1-1");
    assert!(res.is_err());

    let res = parse_selector("1-1-a");
    assert!(res.is_err());

    let res = parse_selector("1-1");
    assert!(res.is_err());
    assert_eq!(
        res.unwrap_err().message(),
        "First number in range (1) must be lower than second number (1)",
    );

    let res = parse_selector("2-1");
    assert!(res.is_err());
    assert_eq!(
        res.unwrap_err().message(),
        "First number in range (2) must be lower than second number (1)",
    );

    let res = parse_selector("1");
    assert!(res.is_ok());
    assert_eq!(res.unwrap(), vec![rg(0, 1)]);

    let res = parse_selector("01");
    assert!(res.is_ok());
    assert_eq!(res.unwrap(), vec![rg(0, 1)]);

    let res = parse_selector("1,3");
    assert!(res.is_ok());
    assert_eq!(res.unwrap(), vec![rg(0, 1), rg(2, 3)]);

    let res = parse_selector("001,0003");
    assert!(res.is_ok());
    assert_eq!(res.unwrap(), vec![rg(0, 1), rg(2, 3)]);

    let res = parse_selector("1-3");
    assert!(res.is_ok());
    assert_eq!(res.unwrap(), vec![rg(0, 3)]);

    let res = parse_selector("001-03");
    assert!(res.is_ok());
    assert_eq!(res.unwrap(), vec![rg(0, 3)]);

    let res = parse_selector("1,7,3-5");
    assert!(res.is_ok());
    assert_eq!(res.unwrap(), vec![rg(0, 1), rg(6, 7), rg(2, 5)]);

    let res = parse_selector("15,19-20");
    assert!(res.is_ok());
    assert_eq!(res.unwrap(), vec![rg(14, 15), rg(18, 20)]);
}

#[test]
fn single_numbers_become_one_element_ranges() {
    assert_eq!(parse_selector("5").unwrap(), vec![rg(4, 5)]);
    assert_eq!(parse_selector("42").unwrap(), vec![rg(41, 42)]);
    assert_eq!(parse_selector("1000000").unwrap(), vec![rg(999999, 1000000)]);
}

#[test]
fn two_sided_ranges_are_inclusive() {
    assert_eq!(parse_selector("2-9").unwrap(), vec![rg(1, 9)]);
    assert_eq!(parse_selector("10-200").unwrap(), vec![rg(9, 200)]);
}

#[test]
fn leading_zeros_are_insignificant() {
    assert_eq!(parse_selector("001,0003"), parse_selector("1,3"));
    assert_eq!(parse_selector("007"), parse_selector("7"));
    assert_eq!(parse_selector("001-03"), parse_selector("1-3"));
}

#[test]
fn order_is_preserved_and_ranges_not_merged() {
    assert_eq!(
        parse_selector("1,7,3-5").unwrap(),
        vec![rg(0, 1), rg(6, 7), rg(2, 5)]
    );
    // duplicates and overlaps are kept as written
    assert_eq!(
        parse_selector("2,2,1-3").unwrap(),
        vec![rg(1, 2), rg(1, 2), rg(0, 3)]
    );
}

#[test]
fn error_variants_report_the_offending_part() {
    assert_eq!(
        parse_selector("1,x,3").unwrap_err(),
        ParseError::InvalidNumber("x".to_string())
    );
    assert_eq!(parse_selector("0").unwrap_err(), ParseError::InvalidIndex);
    assert_eq!(
        parse_selector("0-4").unwrap_err(),
        ParseError::InvalidRangeStart
    );
    assert_eq!(
        parse_selector("9-2").unwrap_err(),
        ParseError::InvalidRangeOrder(9, 2)
    );
    assert_eq!(
        parse_selector("1-2-3").unwrap_err(),
        ParseError::InvalidRange(vec![
            "1".to_string(),
            "2".to_string(),
            "3".to_string()
        ])
    );
    assert_eq!(
        parse_selector("1-2-3").unwrap_err().message(),
        "Invalid range: [\"1\", \"2\", \"3\"]"
    );
}

#[test]
fn empty_parts_are_invalid_numbers() {
    assert_eq!(
        parse_selector("").unwrap_err(),
        ParseError::InvalidNumber(String::new())
    );
    assert_eq!(
        parse_selector("1,,2").unwrap_err(),
        ParseError::InvalidNumber(String::new())
    );
}

#[test]
fn numbers_too_large_to_index_with_are_rejected() {
    let res = parse_selector("99999999999999999999999999");
    assert_eq!(
        res.unwrap_err(),
        ParseError::InvalidNumber("99999999999999999999999999".to_string())
    );
}

#[test]
fn first_invalid_part_wins() {
    // the second part is reported even when a later one is also bad
    assert_eq!(
        parse_selector("1,0,x").unwrap_err(),
        ParseError::InvalidIndex
    );
    assert_eq!(
        parse_selector("3-1,0").unwrap_err(),
        ParseError::InvalidRangeOrder(3, 1)
    );
}
