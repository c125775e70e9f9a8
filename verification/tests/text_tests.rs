use collector::selection::name_matches_search;
use collector::text::{parse_decimal_u64, str_is_blank, text_less};

#[test]
fn text_order_is_string_order() {
    let words = ["", "a", "ab", "b", "B", "é", "z", "黑", "ab\u{0}", "aa"];
    for x in words {
        for y in words {
            assert_eq!(text_less(x, y), x < y, "{x:?} {y:?}");
        }
    }
}

#[test]
fn lowercase_is_unicode_lowercase() {
    assert!(name_matches_search("ÀB Ωmega", "àb ω"));
    assert!(name_matches_search("àb ωmega", "ÀB Ω"));
    assert!(name_matches_search("abc", "BC"));
    assert!(!name_matches_search("abc", "x"));
}

#[test]
fn decimals_parse_like_std() {
    for s in ["0", "42", "+42", "", "+", "-1", "007", "18446744073709551615", "18446744073709551616", "4 2", "٣"] {
        assert_eq!(parse_decimal_u64(s), s.parse::<u64>().ok(), "{s:?}");
    }
}

#[test]
fn blank_means_trims_to_nothing() {
    for s in ["", " ", "\t\n", "\u{a0}\u{3000}", "x", " x ", "\u{200b}"] {
        assert_eq!(str_is_blank(s), s.trim().is_empty(), "{s:?}");
    }
}
