use tofnd::numeric::{parse_index_list, usize_to_dec_bytes, usize_to_string};

#[test]
fn decimal_string_exact_values() {
    assert_eq!(usize_to_string(0), "0");
    assert_eq!(usize_to_string(7), "7");
    assert_eq!(usize_to_string(10), "10");
    assert_eq!(usize_to_string(12345), "12345");
    assert_eq!(usize_to_string(1000), "1000");
}

#[test]
fn decimal_bytes_exact_values() {
    assert_eq!(usize_to_dec_bytes(0), b"0".to_vec());
    assert_eq!(usize_to_dec_bytes(307), b"307".to_vec());
    assert_eq!(usize_to_dec_bytes(90), b"90".to_vec());
}

#[test]
fn index_list_single_value() {
    assert_eq!(parse_index_list("0"), Some(vec![0]));
    assert_eq!(parse_index_list("42"), Some(vec![42]));
    assert_eq!(parse_index_list("007"), Some(vec![7]));
}

#[test]
fn index_list_many_values() {
    assert_eq!(parse_index_list("2,3"), Some(vec![2, 3]));
    assert_eq!(parse_index_list("1,2,3"), Some(vec![1, 2, 3]));
    assert_eq!(parse_index_list("9,0,9"), Some(vec![9, 0, 9]));
}

#[test]
fn index_list_rejects_malformed_input() {
    assert_eq!(parse_index_list(""), None);
    assert_eq!(parse_index_list("1,,2"), None);
    assert_eq!(parse_index_list("a"), None);
    assert_eq!(parse_index_list("1,2x"), None);
    assert_eq!(parse_index_list(","), None);
    assert_eq!(parse_index_list("3,"), None);
    assert_eq!(parse_index_list(" 1"), None);
}

#[test]
fn index_list_rejects_overflow() {
    assert_eq!(parse_index_list("99999999999999999999999999"), None);
    assert_eq!(parse_index_list("1,99999999999999999999999999"), None);
}
