use hub::ble_server::{check_reboot_payload, reboot_node_count};
use hub::cli_command::CLICommand;
use hub::session::{console_request, ConsoleRequest};
use hub::text::{
    chars_of, decimal_chars, parse_decimal, parse_usize, replace, split_whitespace, str_eq, trim,
    trim_end_nul, usize_text, uuid_string,
};

#[test]
fn splitting_matches_std() {
    for s in ["", "  a  b\tc\n", "kitchen light up 3", "\u{3000}x\u{a0}y\u{85}", "one"] {
        let expected: Vec<String> = s.split_whitespace().map(|w| w.to_string()).collect();
        assert_eq!(split_whitespace(s), expected);
    }
}

#[test]
fn trimming_matches_std() {
    for s in ["  a b  ", "\u{2028}x\u{205f}", "", "abc"] {
        let t: String = trim(&chars_of(s)).into_iter().collect();
        assert_eq!(t, s.trim());
    }
    let t: String = trim_end_nul(&chars_of("ab\0\0")).into_iter().collect();
    assert_eq!(t, "ab");
}

#[test]
fn replacing_matches_std() {
    for (s, p, r) in [("a%20b%20", "%20", " "), ("0da6-f7-", "-", ""), ("aaa", "aa", "b")] {
        let got: String = replace(&chars_of(s), &chars_of(p), &chars_of(r)).into_iter().collect();
        assert_eq!(got, s.replace(p, r));
    }
}

#[test]
fn parsing_matches_std() {
    for s in ["0", "+12", "-1", "", "+", "18446744073709551615", "18446744073709551616", "1a"] {
        assert_eq!(parse_usize(s), s.parse::<usize>().ok());
        assert_eq!(
            parse_decimal(&chars_of(s), u32::MAX as u128).map(|v| v as u32),
            s.parse::<u32>().ok()
        );
    }
    assert_eq!(parse_decimal(&chars_of("0x10"), u128::MAX), None);
}

#[test]
fn decimal_text_matches_std() {
    for n in [0usize, 7, 10, 99, 100, 123456789, usize::MAX] {
        assert_eq!(usize_text(n), n.to_string());
    }
    let d: String = decimal_chars(u128::MAX).into_iter().collect();
    assert_eq!(d, u128::MAX.to_string());
}

#[test]
fn uuid_text_is_hyphenated_hex() {
    assert_eq!(uuid_string(0), "00000000-0000-0000-0000-000000000000");
    assert_eq!(
        uuid_string(0x7e1be1ebf9844e17b0f1049e02a39567),
        "7e1be1eb-f984-4e17-b0f1-049e02a39567"
    );
}

#[test]
fn lowercasing_goes_through_std() {
    // Lower-casing is what lets a capitalised name through.
    assert_eq!(CLICommand::from_str("STATUS"), Ok(CLICommand::Status));
    // Unicode lower-casing: the Kelvin sign is not an ASCII letter.
    assert!(CLICommand::from_str("\u{212a}").is_err());
}

#[test]
fn decoding_goes_through_std() {
    // Decoding turns the byte b'5' into the digit 5.
    assert_eq!(reboot_node_count(b"5"), 5);
    assert_eq!(reboot_node_count("5é".as_bytes()), 5);
    assert!(!check_reboot_payload(&[0xe9]));
    // Lossy decoding replaces the bad byte and keeps the rest readable.
    assert_eq!(console_request(b"status"), ConsoleRequest::ShowStatus);
    assert_eq!(console_request(&[b's', 0xff]), ConsoleRequest::BadCommand);
}

#[test]
fn comparing_texts() {
    assert!(str_eq("abc", "abc"));
    assert!(!str_eq("abc", "abd"));
    assert!(!str_eq("abc", "ab"));
}

#[test]
fn uuid_text_length() {
    for u in [0u128, 1, 0xdead_beef, u128::MAX] {
        assert_eq!(uuid_string(u).chars().count(), 36);
    }
}
