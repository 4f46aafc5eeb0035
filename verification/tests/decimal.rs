use leybold_opc_rs::decimal::parse_i64;

#[test]
fn plain_numbers() {
    assert_eq!(parse_i64(b"0"), Some(0));
    assert_eq!(parse_i64(b"7"), Some(7));
    assert_eq!(parse_i64(b"1234567890"), Some(1234567890));
    assert_eq!(parse_i64(b"-1"), Some(-1));
    assert_eq!(parse_i64(b"+1"), Some(1));
    assert_eq!(parse_i64(b"-0"), Some(0));
    assert_eq!(parse_i64(b"+0"), Some(0));
    assert_eq!(parse_i64(b"007"), Some(7));
    assert_eq!(parse_i64(b"-000000000000000000000000000042"), Some(-42));
}

#[test]
fn the_ends_of_the_range() {
    assert_eq!(parse_i64(b"9223372036854775807"), Some(i64::MAX));
    assert_eq!(parse_i64(b"+9223372036854775807"), Some(i64::MAX));
    assert_eq!(parse_i64(b"9223372036854775808"), None);
    assert_eq!(parse_i64(b"-9223372036854775808"), Some(i64::MIN));
    assert_eq!(parse_i64(b"-9223372036854775809"), None);
    assert_eq!(parse_i64(b"-9223372036854775807"), Some(i64::MIN + 1));
    assert_eq!(parse_i64(b"18446744073709551616"), None);
    assert_eq!(parse_i64(b"99999999999999999999999999999999999999999"), None);
    assert_eq!(parse_i64(b"0000000000000000000009223372036854775807"), Some(i64::MAX));
}

#[test]
fn what_is_no_number() {
    for text in [
        &b""[..],
        b"-",
        b"+",
        b"+-1",
        b"--1",
        b"1-",
        b" 1",
        b"1 ",
        b"1_000",
        b"1.0",
        b"1e3",
        b"0x10",
        b"a",
        b"12a",
        b"\xef\xbc\x91",
        b"/",
        b":",
    ] {
        assert_eq!(parse_i64(text), None, "{:?}", text);
    }
}

#[test]
fn agrees_with_the_standard_library() {
    let samples = [
        "0", "-0", "+0", "1", "-1", "+17", "0099", "-", "+", "", "9223372036854775807",
        "9223372036854775808", "-9223372036854775808", "-9223372036854775809", "12 ", "१२",
        "4294967296", "-32768", "1+1", "++1",
    ];
    for text in samples {
        assert_eq!(parse_i64(text.as_bytes()), text.parse::<i64>().ok(), "{:?}", text);
    }
}
