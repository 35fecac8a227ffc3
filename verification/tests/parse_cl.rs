use rsnake::parse_cl::{parse_cl, parse_number, Invalid, DEFAULT_SIZE};

#[test]
fn parse_number_reads_decimal() {
    assert_eq!(parse_number("0"), Some(0));
    assert_eq!(parse_number("7"), Some(7));
    assert_eq!(parse_number("20"), Some(20));
    assert_eq!(parse_number("007"), Some(7));
    assert_eq!(parse_number("+45"), Some(45));
    assert_eq!(parse_number("4294967295"), Some(u32::MAX));
    assert_eq!(parse_number("0000000000004294967295"), Some(u32::MAX));
}

#[test]
fn parse_number_refuses_what_is_no_number() {
    assert_eq!(parse_number(""), None);
    assert_eq!(parse_number("+"), None);
    assert_eq!(parse_number("-3"), None);
    assert_eq!(parse_number("++3"), None);
    assert_eq!(parse_number("3+"), None);
    assert_eq!(parse_number(" 3"), None);
    assert_eq!(parse_number("3 "), None);
    assert_eq!(parse_number("1e3"), None);
    assert_eq!(parse_number("12a"), None);
    assert_eq!(parse_number("٣"), None);
    assert_eq!(parse_number("4294967296"), None);
    assert_eq!(parse_number("99999999999999999999999999"), None);
}

#[test]
fn parse_number_agrees_with_the_standard_library() {
    for s in ["0", "1", "+1", "-1", "", "+", "00", "4294967295", "4294967296", "12x", "x12", "1 2"] {
        assert_eq!(parse_number(s), s.parse::<u32>().ok());
    }
}

#[test]
fn parse_cl_takes_the_defaults() {
    let o = parse_cl(None, None, None, "20").unwrap();
    assert_eq!(DEFAULT_SIZE, 20);
    assert_eq!(o.size, (20, 20));
    assert_eq!(o.scale, 20);
}

#[test]
fn parse_cl_takes_width_and_height_apart() {
    let o = parse_cl(Some("30"), None, None, "8").unwrap();
    assert_eq!(o.size, (30, 20));
    assert_eq!(o.scale, 8);
    let o = parse_cl(None, Some("12"), None, "8").unwrap();
    assert_eq!(o.size, (20, 12));
    let o = parse_cl(Some("5"), Some("6"), None, "1").unwrap();
    assert_eq!(o.size, (5, 6));
    assert_eq!(o.scale, 1);
}

#[test]
fn parse_cl_lets_square_stand_for_both() {
    let o = parse_cl(None, None, Some("9"), "20").unwrap();
    assert_eq!(o.size, (9, 9));
    let o = parse_cl(Some("5"), Some("6"), Some("9"), "20").unwrap();
    assert_eq!(o.size, (9, 9));
}

#[test]
fn parse_cl_names_the_argument_that_is_no_number() {
    assert_eq!(parse_cl(None, Some("x"), None, "20").unwrap_err(), Invalid::Height);
    assert_eq!(parse_cl(Some("x"), None, None, "20").unwrap_err(), Invalid::Width);
    assert_eq!(parse_cl(None, None, Some(""), "20").unwrap_err(), Invalid::Square);
    assert_eq!(parse_cl(None, None, None, "2o").unwrap_err(), Invalid::Scale);
}

#[test]
fn parse_cl_wants_extents_and_scale_from_one_up() {
    assert_eq!(parse_cl(None, Some("0"), None, "20").unwrap_err(), Invalid::Height);
    assert_eq!(parse_cl(Some("0"), None, None, "20").unwrap_err(), Invalid::Width);
    assert_eq!(parse_cl(None, None, Some("0"), "20").unwrap_err(), Invalid::Square);
    assert_eq!(parse_cl(None, None, None, "0").unwrap_err(), Invalid::Scale);
    assert_eq!(parse_cl(Some("2147483648"), None, None, "20").unwrap_err(), Invalid::Width);
    let o = parse_cl(Some("2147483647"), Some("1"), None, "4294967295").unwrap();
    assert_eq!(o.size, (2147483647, 1));
    assert_eq!(o.scale, u32::MAX);
}

#[test]
fn parse_cl_names_the_first_argument_at_fault() {
    assert_eq!(parse_cl(Some("a"), Some("b"), Some("c"), "d").unwrap_err(), Invalid::Height);
    assert_eq!(parse_cl(Some("a"), Some("1"), Some("c"), "d").unwrap_err(), Invalid::Width);
    assert_eq!(parse_cl(Some("1"), Some("1"), Some("c"), "d").unwrap_err(), Invalid::Square);
    assert_eq!(parse_cl(Some("1"), Some("1"), Some("1"), "d").unwrap_err(), Invalid::Scale);
}
