use rsgrep::literal::contains;

#[test]
fn finds_a_substring_anywhere() {
    assert!(contains("safe, fast, productive.", "duct"));
    assert!(contains("safe, fast, productive.", "safe"));
    assert!(contains("safe, fast, productive.", "ive."));
    assert!(contains("abc", "abc"));
    assert!(!contains("Duct tape.", "duct"));
    assert!(!contains("abc", "abd"));
    assert!(!contains("abc", "abcd"));
}

#[test]
fn empty_needle_is_everywhere() {
    assert!(contains("abc", ""));
    assert!(contains("", ""));
}

#[test]
fn empty_hay_holds_only_the_empty_needle() {
    assert!(!contains("", "a"));
}

#[test]
fn repeated_prefixes_do_not_mislead() {
    assert!(contains("aaab", "aab"));
    assert!(contains("abababc", "ababc"));
    assert!(!contains("ababab", "abc"));
}

#[test]
fn characters_of_several_bytes() {
    assert!(contains("na\u{ef}ve caf\u{e9}", "caf\u{e9}"));
    assert!(contains("\u{1f600}\u{1f601}\u{1f602}", "\u{1f601}"));
    assert!(!contains("caf\u{e9}", "e"));
    assert!(!contains("\u{e9}", "\u{e8}"));
    // U+00E9 is 0xC3 0xA9, U+0069 is 0x69: no character is found inside another.
    assert!(!contains("\u{e9}", "\u{69}"));
}

#[test]
fn agrees_with_the_standard_library() {
    let hays = ["", "a", "ab", "abcabd", "aaa", "\u{e9}t\u{e9}", "x\u{20ac}y"];
    let needles = ["", "a", "b", "ab", "abd", "aa", "aaaa", "\u{e9}", "t\u{e9}", "\u{20ac}y", "z"];
    for hay in hays {
        for needle in needles {
            assert_eq!(contains(hay, needle), hay.contains(needle), "{:?} in {:?}", needle, hay);
        }
    }
}
