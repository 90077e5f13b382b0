use chipdoc::parse::{parse_text_content, ParseErrorKind};

#[test]
fn mixed_tokens_parse_in_order() {
    let r = parse_text_content("10, 0x1A, -3,,  7").unwrap();
    assert_eq!(r, vec![10, 26, -3, 7]);
}

#[test]
fn plain_decimal_list() {
    assert_eq!(parse_text_content("1,2,3").unwrap(), vec![1, 2, 3]);
}

#[test]
fn empty_input_yields_nothing() {
    assert_eq!(parse_text_content("").unwrap(), Vec::<i64>::new());
}

#[test]
fn commas_and_whitespace_only_yield_nothing() {
    assert_eq!(parse_text_content(",,,").unwrap(), Vec::<i64>::new());
    assert_eq!(parse_text_content("  \t \n ").unwrap(), Vec::<i64>::new());
    assert_eq!(parse_text_content(" , \n , ").unwrap(), Vec::<i64>::new());
}

#[test]
fn signs_are_accepted() {
    assert_eq!(parse_text_content("+7").unwrap(), vec![7]);
    assert_eq!(parse_text_content("-3").unwrap(), vec![-3]);
}

#[test]
fn bare_sign_is_rejected() {
    let e = parse_text_content("+").unwrap_err();
    assert_eq!(e.token, "+");
    assert_eq!(e.kind, ParseErrorKind::InvalidDigit);
    let e = parse_text_content("-").unwrap_err();
    assert_eq!(e.kind, ParseErrorKind::InvalidDigit);
}

#[test]
fn hex_tokens() {
    assert_eq!(parse_text_content("0x0").unwrap(), vec![0]);
    assert_eq!(parse_text_content("0xff").unwrap(), vec![255]);
    assert_eq!(parse_text_content("0xFF").unwrap(), vec![255]);
    assert_eq!(parse_text_content("0x10").unwrap(), vec![16]);
}

#[test]
fn hex_prefix_is_case_sensitive() {
    // `0X1A` has no `0x` prefix, so it is read base 10 and rejected at `X`.
    let e = parse_text_content("0X1A").unwrap_err();
    assert_eq!(e.token, "0X1A");
    assert_eq!(e.kind, ParseErrorKind::InvalidDigit);
}

#[test]
fn bare_hex_prefix_is_empty() {
    let e = parse_text_content("0x").unwrap_err();
    assert_eq!(e.token, "0x");
    assert_eq!(e.kind, ParseErrorKind::Empty);
}

#[test]
fn sign_after_hex_prefix_is_accepted() {
    // The base-16 reader sees the sign, as the hex path forwards everything
    // after the prefix.
    assert_eq!(parse_text_content("0x-3").unwrap(), vec![-3]);
    assert_eq!(
        parse_text_content("0x-8000000000000000").unwrap(),
        vec![i64::MIN]
    );
}

#[test]
fn sign_before_hex_prefix_is_rejected() {
    let e = parse_text_content("-0x10").unwrap_err();
    assert_eq!(e.token, "-0x10");
    assert_eq!(e.kind, ParseErrorKind::InvalidDigit);
}

#[test]
fn decimal_bounds() {
    assert_eq!(
        parse_text_content("9223372036854775807").unwrap(),
        vec![i64::MAX]
    );
    assert_eq!(
        parse_text_content("-9223372036854775808").unwrap(),
        vec![i64::MIN]
    );
    let e = parse_text_content("9223372036854775808").unwrap_err();
    assert_eq!(e.kind, ParseErrorKind::PosOverflow);
    let e = parse_text_content("-9223372036854775809").unwrap_err();
    assert_eq!(e.kind, ParseErrorKind::NegOverflow);
}

#[test]
fn hex_bounds() {
    assert_eq!(
        parse_text_content("0x7fffffffffffffff").unwrap(),
        vec![i64::MAX]
    );
    let e = parse_text_content("0x8000000000000000").unwrap_err();
    assert_eq!(e.kind, ParseErrorKind::PosOverflow);
}

#[test]
fn first_bad_token_is_reported_trimmed() {
    let e = parse_text_content("1,  abc , 3").unwrap_err();
    assert_eq!(e.token, "abc");
    assert_eq!(e.kind, ParseErrorKind::InvalidDigit);
}

#[test]
fn earlier_error_wins() {
    let e = parse_text_content("zz, 0x").unwrap_err();
    assert_eq!(e.token, "zz");
    assert_eq!(e.kind, ParseErrorKind::InvalidDigit);
}

#[test]
fn parse_error_message_text() {
    let e = parse_text_content("abc").unwrap_err();
    assert_eq!(e.message(), "Invalid number 'abc': invalid digit found in string");
    let e = parse_text_content("0x").unwrap_err();
    assert_eq!(
        e.message(),
        "Invalid number '0x': cannot parse integer from empty string"
    );
    let e = parse_text_content("9223372036854775808").unwrap_err();
    assert_eq!(
        e.message(),
        "Invalid number '9223372036854775808': number too large to fit in target type"
    );
    let e = parse_text_content("-9223372036854775809").unwrap_err();
    assert_eq!(
        e.message(),
        "Invalid number '-9223372036854775809': number too small to fit in target type"
    );
}
