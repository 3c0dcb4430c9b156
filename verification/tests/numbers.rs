use change_flare::text::parse_usize;

#[test]
fn reads_decimal_numbers() {
    assert_eq!(parse_usize("0"), Some(0));
    assert_eq!(parse_usize("300"), Some(300));
    assert_eq!(parse_usize("+45"), Some(45));
    assert_eq!(parse_usize("007"), Some(7));
    assert_eq!(parse_usize(&usize::MAX.to_string()), Some(usize::MAX));
}

#[test]
fn rejects_what_is_no_number() {
    for text in ["", "+", "-1", "1 ", " 1", "1_000", "12a", "0x10", "1.5", "++1", "٣"] {
        assert_eq!(parse_usize(text), None, "parsing {:?}", text);
    }
}

#[test]
fn rejects_numbers_beyond_a_machine_word() {
    let beyond = format!("{}0", usize::MAX);
    assert_eq!(parse_usize(&beyond), None);
    let next = (usize::MAX as u128 + 1).to_string();
    assert_eq!(parse_usize(&next), None);
    assert_eq!(parse_usize("99999999999999999999999999999999999999999"), None);
}

#[test]
fn number_parsing_agrees_with_the_standard_library() {
    for text in ["", "+", "+0", "0", "00", "+007", "18446744073709551615", "18446744073709551616",
        "-0", "1e3", "12", " 12", "12 ", "+-1", "4294967295", "4294967296"] {
        assert_eq!(parse_usize(text), text.parse::<usize>().ok(), "parsing {:?}", text);
    }
}
