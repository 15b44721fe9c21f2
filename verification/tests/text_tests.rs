use ee2e_chat::{bytes, digits, hex, text};

#[test]
fn trimming_takes_off_all_white_space() {
    assert_eq!(text::trimmed(" \t\u{a0}a b\u{2003}\n"), "a b");
    assert_eq!(text::trimmed("\u{3000}\u{85}"), "");
    assert_eq!(text::trimmed("x"), "x");
    // A zero-width space is not white space.
    assert_eq!(text::trimmed("\u{200b}"), "\u{200b}");
    assert!(text::is_blank("\r\n"));
    assert!(!text::is_blank("."));
}

#[test]
fn white_space_is_what_the_standard_says() {
    for code in 0..0x11_0000u32 {
        if let Some(c) = char::from_u32(code) {
            let s = c.to_string();
            let expected = matches!(
                code,
                0x09..=0x0d
                    | 0x20
                    | 0x85
                    | 0xa0
                    | 0x1680
                    | 0x2000..=0x200a
                    | 0x2028
                    | 0x2029
                    | 0x202f
                    | 0x205f
                    | 0x3000
            );
            assert_eq!(text::is_blank(&s), expected, "{code:x}");
        }
    }
}

#[test]
fn numbers_are_written_without_leading_zeros() {
    assert_eq!(text::in_decimal(0), "0");
    assert_eq!(text::in_decimal(u64::MAX), "18446744073709551615");
    assert_eq!(text::written(0o644, 8), "644");
    assert_eq!(text::written(0xdead, 16), "dead");
}

#[test]
fn line_ends_come_off_one_at_a_time() {
    assert_eq!(text::without_line_end("a\n\n"), "a\n");
    assert_eq!(text::without_line_end("é"), "é");
    assert_eq!(text::without_line_end(""), "");
}

#[test]
fn only_utf8_is_text() {
    assert_eq!(text::decoded("é!".as_bytes()), Some("é!".to_string()));
    assert_eq!(text::decoded(&[0xff]), None);
    assert!(text::same_text("é", "é"));
    assert!(!text::same_text("é", "e"));
}

#[test]
fn hexadecimal_goes_both_ways() {
    assert_eq!(hex::to_hex(&[0, 15, 255]), "000fff");
    assert_eq!(hex::from_hex(" 000FfF "), Some(vec![0, 15, 255]));
    assert_eq!(hex::from_hex(""), Some(vec![]));
    for bad in ["0", "0g", "-1", "+f", "0+", "f f0", "é", "0é1", "ｆｆ"] {
        assert_eq!(hex::from_hex(bad), None, "{bad}");
    }
}

#[test]
fn byte_strings_are_ordered_like_a_dictionary() {
    assert!(bytes::comes_before(&[1], &[2]));
    assert!(bytes::comes_before(&[1], &[1, 0]));
    assert!(!bytes::comes_before(&[1, 0], &[1]));
    assert!(!bytes::comes_before(&[], &[]));
    assert!(bytes::same_bytes(&[1, 2], &[1, 2]));
    assert!(!bytes::same_bytes(&[1, 2], &[1, 3]));
    assert_eq!(bytes::to_array::<2>(&[1, 2]), Some([1, 2]));
    assert_eq!(bytes::to_array::<3>(&[1, 2]), None);
    assert_eq!(bytes::joined(&[1], &[2, 3]), vec![1, 2, 3]);
}

#[test]
fn numerals_go_both_ways() {
    assert_eq!(digits::written_in(1000, 2, 256), vec![3, 232]);
    assert_eq!(digits::read_as(&[3, 232], 256), 1000);
    assert_eq!(digits::written_in(5, 3, 2), vec![1, 0, 1]);
}
