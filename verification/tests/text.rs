use erdueltools::text::{
    chars_of, decimal_text, is_white_space, join, padded_hex, push_decimal, push_numeral,
    push_padded, push_signed, same, text_of, trim,
};

#[test]
fn numerals_match_std_formatting() {
    for n in [0u64, 1, 9, 10, 255, 4096, 65_535, u32::MAX as u64, u64::MAX] {
        assert_eq!(decimal_text(n), format!("{}", n));
        assert_eq!(padded_hex(n, false, 2), format!("{:02x}", n));
        assert_eq!(padded_hex(n, true, 8), format!("{:08X}", n));
        let mut text = "n=".to_owned();
        push_decimal(&mut text, n);
        assert_eq!(text, format!("n={}", n));
        let mut hex = String::new();
        push_numeral(&mut hex, n as u128, 16, false);
        assert_eq!(hex, format!("{:x}", n));
    }
    let mut large = String::new();
    push_numeral(&mut large, u128::MAX, 16, false);
    assert_eq!(large, format!("{:x}", u128::MAX));
}

#[test]
fn signed_numerals_match_std_formatting() {
    for n in [0i64, -1, 1, -10, i64::MAX, i64::MIN, -1_234_567] {
        let mut text = String::new();
        push_signed(&mut text, n);
        assert_eq!(text, format!("{}", n));
    }
}

#[test]
fn padding_adds_zeros_in_front() {
    let mut text = "x".to_owned();
    push_padded(&mut text, "7", 3);
    assert_eq!(text, "x007");
    push_padded(&mut text, "12345", 3);
    assert_eq!(text, "x00712345");
}

#[test]
fn white_space_is_that_of_unicode() {
    for n in 0..=0x10FFFFu32 {
        if let Some(c) = char::from_u32(n) {
            assert_eq!(is_white_space(c), c.is_whitespace(), "{:#x}", n);
        }
    }
}

#[test]
fn trimming_matches_std() {
    for text in ["", " ", "a", "  a b  ", "\u{3000}名 前\u{3000}\n", "\t\r\n", "x\u{85}"] {
        assert_eq!(trim(text), text.trim());
    }
}

#[test]
fn joining_matches_std() {
    let none: Vec<String> = Vec::new();
    assert_eq!(join(&none, "/"), "");
    let one = vec!["a".to_owned()];
    assert_eq!(join(&one, "/"), "a");
    let three = vec!["a".to_owned(), "".to_owned(), "c".to_owned()];
    assert_eq!(join(&three, "/"), "a//c");
}

#[test]
fn characters_come_and_go() {
    let chars = chars_of("a名b");
    assert_eq!(chars, vec!['a', '名', 'b']);
    assert_eq!(text_of(&chars, 1, 3), "名b");
    assert_eq!(text_of(&chars, 2, 2), "");
    assert!(same("名", "名"));
    assert!(!same("名", "名 "));
}
