use rs_translator::{count_languages, is_chinese, target_language};

#[test]
fn chinese_ideographs_are_recognised() {
    assert!(is_chinese('中'));
    assert!(is_chinese('\u{4E00}'));
    assert!(is_chinese('\u{9FFF}'));
    assert!(is_chinese('\u{3400}'));
    assert!(is_chinese('\u{20000}'));
    assert!(is_chinese('\u{2FA1F}'));
    assert!(is_chinese('\u{F900}'));
}

#[test]
fn other_characters_are_not_chinese() {
    assert!(!is_chinese('a'));
    assert!(!is_chinese('あ'));
    assert!(!is_chinese('한'));
    assert!(!is_chinese('\u{4DFF}'));
    assert!(!is_chinese('\u{A000}'));
    assert!(!is_chinese('。'));
}

#[test]
fn counts_chinese_and_ascii_characters() {
    assert_eq!(count_languages("Hello, 世界!"), (2, 8));
    assert_eq!(count_languages(""), (0, 0));
    assert_eq!(count_languages("你好吗"), (3, 0));
    assert_eq!(count_languages("é あ"), (0, 1));
}

#[test]
fn counts_never_exceed_the_number_of_characters() {
    let text = "mixed 文字 with émojis 😀 and 汉字";
    let (c, e) = count_languages(text);
    assert!(c + e <= text.chars().count());
}

#[test]
fn target_language_follows_the_majority() {
    assert_eq!(target_language("你好世界 ok"), "en");
    assert_eq!(target_language("hello 世界"), "zh");
    assert_eq!(target_language("ab你好"), "zh");
    assert_eq!(target_language(""), "zh");
}
