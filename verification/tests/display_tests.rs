use collector::display::{clamp_numeric, is_wide_char, numeric_editor_rebuild, truncate_one_line};

#[test]
fn numeric_editors_keep_digits_up_to_the_limit() {
    assert_eq!(clamp_numeric("2024", 4), "2024");
    assert_eq!(clamp_numeric("20245", 4), "2024");
    assert_eq!(clamp_numeric("2a0-2b4", 4), "2024");
    assert_eq!(clamp_numeric("1x", 2), "1");
    assert_eq!(clamp_numeric("abc", 2), "");
    assert_eq!(clamp_numeric("123", 0), "");
    assert_eq!(clamp_numeric("١٢", 2), "");
    assert_eq!(clamp_numeric("12\n", 2), "12");
    let once = clamp_numeric("9x8y7z6", 3);
    assert_eq!(clamp_numeric(&once, 3), once);
}

#[test]
fn lines_are_truncated_with_dots() {
    assert_eq!(truncate_one_line("short", 10), "short");
    assert_eq!(truncate_one_line("exactly10!", 10), "exactly10!");
    assert_eq!(truncate_one_line("this is too long", 10), "this is...");
    assert_eq!(truncate_one_line("two\nlines", 20), "two lines");
    assert_eq!(truncate_one_line("a\nb\nc\nd", 5), "a ...");
    assert_eq!(truncate_one_line("abcdef", 2), "...");
    assert_eq!(truncate_one_line("黑风雷黑风雷", 5), "黑风...");
    assert_eq!(truncate_one_line("", 0), "");
    let t = truncate_one_line("many\nmany\nlines here", 8);
    assert!(!t.contains('\n'));
    assert!(t.chars().count() <= 8);
}

#[test]
fn numeric_editors_are_rebuilt_only_when_their_text_changes() {
    assert_eq!(numeric_editor_rebuild("2024\n", 4), None);
    assert_eq!(numeric_editor_rebuild("20a24", 4), Some("2024".to_string()));
    assert_eq!(numeric_editor_rebuild("20245", 4), Some("2024".to_string()));
    assert_eq!(numeric_editor_rebuild("", 2), None);
    let kept = numeric_editor_rebuild("1x2y3", 2).unwrap();
    assert_eq!(kept, "12");
    assert_eq!(numeric_editor_rebuild(&kept, 2), None);
}

#[test]
fn wide_characters_are_cjk_and_emoji() {
    assert!(is_wide_char('漢'));
    assert!(is_wide_char('あ'));
    assert!(is_wide_char('한'));
    assert!(is_wide_char('\u{1F4F7}'));
    assert!(is_wide_char('Ａ'));
    assert!(!is_wide_char('a'));
    assert!(!is_wide_char('é'));
    assert!(!is_wide_char('\u{2712}'));
}
