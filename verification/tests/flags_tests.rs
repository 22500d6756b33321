use aligned_table::flags::{parse_count, parse_delimiter, FlagError, DEFAULT_DELIMITER};

#[test]
fn counts_are_plain_decimal_numbers() {
    assert_eq!(parse_count("0"), Ok(0));
    assert_eq!(parse_count("2"), Ok(2));
    assert_eq!(parse_count("10"), Ok(10));
    assert_eq!(parse_count("007"), Ok(7));
    assert_eq!(parse_count("1234567890"), Ok(1234567890));
}

#[test]
fn largest_count_is_the_machine_word() {
    let largest = format!("{}", usize::MAX);
    assert_eq!(parse_count(&largest), Ok(usize::MAX));
    let padded = format!("000{}", usize::MAX);
    assert_eq!(parse_count(&padded), Ok(usize::MAX));
}

#[test]
fn count_past_the_machine_word_is_refused() {
    let digits = format!("{}", usize::MAX);
    let (head, last) = digits.split_at(digits.len() - 1);
    let next = format!("{}{}", head, last.parse::<u8>().unwrap() + 1);
    assert_eq!(parse_count(&next), Err(FlagError::InvalidNumber));
    let longer = format!("{}0", usize::MAX);
    assert_eq!(parse_count(&longer), Err(FlagError::InvalidNumber));
    assert_eq!(
        parse_count("99999999999999999999999999999999999999999999"),
        Err(FlagError::InvalidNumber)
    );
}

#[test]
fn count_must_be_digits_only() {
    assert_eq!(parse_count(""), Err(FlagError::InvalidNumber));
    assert_eq!(parse_count("abc"), Err(FlagError::InvalidNumber));
    assert_eq!(parse_count("12a"), Err(FlagError::InvalidNumber));
    assert_eq!(parse_count("a12"), Err(FlagError::InvalidNumber));
    assert_eq!(parse_count("-1"), Err(FlagError::InvalidNumber));
    assert_eq!(parse_count("+1"), Err(FlagError::InvalidNumber));
    assert_eq!(parse_count(" 1"), Err(FlagError::InvalidNumber));
    assert_eq!(parse_count("1 "), Err(FlagError::InvalidNumber));
    assert_eq!(parse_count("1.5"), Err(FlagError::InvalidNumber));
    assert_eq!(parse_count("٣"), Err(FlagError::InvalidNumber));
    assert_eq!(parse_count("/"), Err(FlagError::InvalidNumber));
    assert_eq!(parse_count(":"), Err(FlagError::InvalidNumber));
}

#[test]
fn delimiter_is_exactly_one_byte() {
    assert_eq!(parse_delimiter(","), Ok(b','));
    assert_eq!(parse_delimiter(";"), Ok(b';'));
    assert_eq!(parse_delimiter("\t"), Ok(b'\t'));
    assert_eq!(parse_delimiter(" "), Ok(b' '));
    assert_eq!(parse_delimiter("|"), Ok(b'|'));
}

#[test]
fn delimiter_of_another_length_is_refused() {
    assert_eq!(parse_delimiter(""), Err(FlagError::InvalidDelimiter));
    assert_eq!(parse_delimiter(",,"), Err(FlagError::InvalidDelimiter));
    assert_eq!(parse_delimiter("\\t"), Err(FlagError::InvalidDelimiter));
    assert_eq!(parse_delimiter("tab"), Err(FlagError::InvalidDelimiter));
    // One character, but two bytes.
    assert_eq!(parse_delimiter("é"), Err(FlagError::InvalidDelimiter));
}

#[test]
fn default_delimiter_is_the_comma() {
    assert_eq!(DEFAULT_DELIMITER, b',');
    assert_eq!(parse_delimiter(","), Ok(DEFAULT_DELIMITER));
}
