use erdueltools::notify::{flatten, say, say_long, wide_text};

fn line(text: &str) -> String {
    flatten(text).into_iter().collect()
}

#[test]
fn messages_become_one_line() {
    for text in ["", "  ", "a", " a  b\n\tc ", "已保存\n\n构筑", "\u{3000}x\u{3000}y"] {
        let expected = text.split_whitespace().collect::<Vec<&str>>().join(" ");
        assert_eq!(line(text), expected);
        assert_eq!(line(&expected), expected);
    }
}

#[test]
fn words_match_std_encoding() {
    for text in ["", "abc", "已保存", "a😀b"] {
        let mut expected: Vec<u16> = text.encode_utf16().collect();
        expected.push(0);
        assert_eq!(wide_text(&text.chars().collect()), expected);
    }
}

#[test]
fn short_messages_stay_whole() {
    let message = say("已 保存\n");
    let mut expected: Vec<u16> = "已 保存".encode_utf16().collect();
    expected.push(0);
    assert_eq!(message.units, expected);
    assert_eq!(message.millis, 500);
    assert_eq!(say_long("x").millis, 4_000);
}

#[test]
fn long_messages_are_cut() {
    let exact = "x".repeat(96);
    assert_eq!(say(&exact).units.len(), 97);
    let long = "x".repeat(97);
    let cut = say(&long).units;
    assert_eq!(cut.len(), 97);
    assert_eq!(cut[94], 'x' as u16);
    assert_eq!(cut[95], '…' as u16);
    assert_eq!(cut[96], 0);
}
