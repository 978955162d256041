use minecraft_block_finder::text::{
    append_chars, chars_of, contains, contains_chars, fill_chars, matches_at, parse_i32, same_chars,
    same_text,
};

#[test]
fn chars_are_those_of_the_string() {
    assert_eq!(chars_of(""), Vec::<char>::new());
    assert_eq!(chars_of("ore"), vec!['o', 'r', 'e']);
    assert_eq!(chars_of("a\u{00e9}\u{4e2d}"), vec!['a', '\u{00e9}', '\u{4e2d}']);
}

#[test]
fn substring_is_found_anywhere() {
    assert!(contains("minecraft:diamond_ore", "ore"));
    assert!(contains("minecraft:diamond_ore", "minecraft"));
    assert!(contains("minecraft:diamond_ore", "diamond_ore"));
    assert!(contains("minecraft:diamond_ore", "minecraft:diamond_ore"));
    assert!(!contains("minecraft:diamond_ore", "gold"));
    assert!(!contains("ore", "diamond_ore"));
}

#[test]
fn substring_search_is_case_sensitive() {
    assert!(!contains("minecraft:diamond_ore", "Diamond"));
    assert!(contains("minecraft:Diamond", "Diamond"));
}

#[test]
fn empty_needle_is_in_every_text() {
    assert!(contains("", ""));
    assert!(contains("stone", ""));
    assert!(!contains("", "stone"));
}

#[test]
fn substring_search_agrees_with_std() {
    let texts = ["", "a", "ab", "aab", "abab", "aaab", "minecraft:oak_log", "\u{00e9}t\u{00e9}"];
    for hay in texts {
        for needle in texts {
            assert_eq!(contains(hay, needle), hay.contains(needle), "{hay:?} {needle:?}");
        }
    }
}

#[test]
fn match_at_a_position() {
    let hay = chars_of("oak_log");
    let needle = chars_of("log");
    assert!(matches_at(&hay, &needle, 4));
    assert!(!matches_at(&hay, &needle, 3));
    assert!(!matches_at(&hay, &needle, 0));
    assert!(contains_chars(&hay, &needle));
}

#[test]
fn decimal_numbers_are_read() {
    assert_eq!(parse_i32("0"), Some(0));
    assert_eq!(parse_i32("42"), Some(42));
    assert_eq!(parse_i32("-17"), Some(-17));
    assert_eq!(parse_i32("+8"), Some(8));
    assert_eq!(parse_i32("007"), Some(7));
    assert_eq!(parse_i32("-0"), Some(0));
}

#[test]
fn decimal_numbers_stay_within_i32() {
    assert_eq!(parse_i32("2147483647"), Some(i32::MAX));
    assert_eq!(parse_i32("2147483648"), None);
    assert_eq!(parse_i32("-2147483648"), Some(i32::MIN));
    assert_eq!(parse_i32("-2147483649"), None);
    assert_eq!(parse_i32("00000000002147483647"), Some(i32::MAX));
    assert_eq!(parse_i32("99999999999999999999999999"), None);
}

#[test]
fn other_texts_are_no_numbers() {
    for text in ["", "-", "+", "--1", "+-1", "1-", "1 ", " 1", "1.0", "0x10", "a", "1a", "\u{0663}"] {
        assert_eq!(parse_i32(text), None, "{text:?}");
    }
}

#[test]
fn decimal_reading_agrees_with_std() {
    let texts = [
        "", "0", "-0", "+0", "1", "-1", "+1", "12345", "-12345", "2147483647", "2147483648",
        "-2147483648", "-2147483649", "4294967296", "abc", "12c", "-", "+", "0012", "1_000",
    ];
    for text in texts {
        assert_eq!(parse_i32(text), text.parse::<i32>().ok(), "{text:?}");
    }
}

#[test]
fn buffer_takes_the_chars_of_each_string_in_turn() {
    let mut buffer = vec!['x'; 3];
    fill_chars("oak", &mut buffer);
    assert_eq!(buffer, vec!['o', 'a', 'k']);
    fill_chars("", &mut buffer);
    assert_eq!(buffer, Vec::<char>::new());
    fill_chars("spruce_log", &mut buffer);
    assert_eq!(buffer, chars_of("spruce_log"));
}

#[test]
fn chars_are_added_at_the_end() {
    let mut out = chars_of("r.");
    append_chars(&mut out, &chars_of("-12"));
    append_chars(&mut out, &chars_of(""));
    append_chars(&mut out, &chars_of(".mca"));
    assert_eq!(out, chars_of("r.-12.mca"));
}

#[test]
fn texts_are_the_same_only_char_for_char() {
    assert!(same_text("minecraft:full", "minecraft:full"));
    assert!(!same_text("minecraft:full", "minecraft:ful"));
    assert!(!same_text("minecraft:full", "minecraft:fulL"));
    assert!(same_text("", ""));
    assert!(same_chars(&chars_of("abc"), &chars_of("abc")));
    assert!(!same_chars(&chars_of("abc"), &chars_of("abd")));
    assert!(!same_chars(&chars_of("abc"), &chars_of("ab")));
    assert!(!same_chars(&chars_of(""), &chars_of("a")));
}
