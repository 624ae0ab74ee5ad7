use vislog::credits::{parse_course_credits, CreditsError};

#[test]
fn course_can_parse_single_digit_course_credit() {
    let credits_str = "1";

    assert_eq!(parse_course_credits(credits_str).unwrap(), (1, None));
}

#[test]
fn course_can_parse_range_of_course_credits() {
    let credits_str = "1.0-3.0";

    assert_eq!(parse_course_credits(credits_str).unwrap(), (1, Some(3)));
}

#[test]
fn courses_can_parse_single_digit_course_credit() {
    let credits_str = "1";

    assert_eq!(parse_course_credits(credits_str).unwrap(), (1, None));
}

#[test]
fn courses_can_parse_range_of_course_credits() {
    let credits_str = "1.0-3.0";

    assert_eq!(parse_course_credits(credits_str).unwrap(), (1, Some(3)));
}

#[test]
fn credits_three() {
    assert_eq!(parse_course_credits("3"), Ok((3, None)));
}

#[test]
fn credits_empty_string_is_an_error() {
    assert_eq!(parse_course_credits(""), Err(CreditsError::InvalidNumber));
}

#[test]
fn credits_single_value_must_be_an_integer() {
    assert_eq!(parse_course_credits("3.0"), Err(CreditsError::InvalidNumber));
    assert_eq!(parse_course_credits("three"), Err(CreditsError::InvalidNumber));
    assert_eq!(parse_course_credits(" 3"), Err(CreditsError::InvalidNumber));
    assert_eq!(parse_course_credits("+"), Err(CreditsError::InvalidNumber));
}

#[test]
fn credits_single_value_bounds() {
    assert_eq!(parse_course_credits("0"), Ok((0, None)));
    assert_eq!(parse_course_credits("255"), Ok((255, None)));
    assert_eq!(parse_course_credits("256"), Err(CreditsError::InvalidNumber));
    assert_eq!(parse_course_credits("+12"), Ok((12, None)));
    assert_eq!(parse_course_credits("007"), Ok((7, None)));
    assert_eq!(
        parse_course_credits("99999999999999999999999999"),
        Err(CreditsError::InvalidNumber)
    );
}

#[test]
fn credits_range_is_floored() {
    assert_eq!(parse_course_credits("1.9-3.99"), Ok((1, Some(3))));
    assert_eq!(parse_course_credits("0.5-1"), Ok((0, Some(1))));
    assert_eq!(parse_course_credits("2-4"), Ok((2, Some(4))));
    assert_eq!(parse_course_credits("2.-4."), Ok((2, Some(4))));
    assert_eq!(parse_course_credits(".5-.75"), Ok((0, Some(0))));
}

#[test]
fn credits_range_keeps_the_order_written() {
    assert_eq!(parse_course_credits("3.0-1.0"), Ok((3, Some(1))));
}

#[test]
fn credits_range_saturates() {
    assert_eq!(parse_course_credits("1-300.5"), Ok((1, Some(255))));
    assert_eq!(
        parse_course_credits("99999999999999999999999-2"),
        Ok((255, Some(2)))
    );
}

#[test]
fn credits_range_errors_name_the_bound() {
    assert_eq!(parse_course_credits("-3"), Err(CreditsError::InvalidLowerBound));
    assert_eq!(parse_course_credits("a-3"), Err(CreditsError::InvalidLowerBound));
    assert_eq!(parse_course_credits(".-3"), Err(CreditsError::InvalidLowerBound));
    assert_eq!(parse_course_credits("1-"), Err(CreditsError::InvalidUpperBound));
    assert_eq!(parse_course_credits("1-b"), Err(CreditsError::InvalidUpperBound));
    assert_eq!(parse_course_credits("1-2-3"), Err(CreditsError::InvalidUpperBound));
    assert_eq!(parse_course_credits("1.0.0-3"), Err(CreditsError::InvalidLowerBound));
    assert_eq!(parse_course_credits("1e1-3"), Err(CreditsError::InvalidLowerBound));
    assert_eq!(parse_course_credits("x-y"), Err(CreditsError::InvalidLowerBound));
}
