use rsgrep::lines::lines;

#[test]
fn empty_text_has_no_line() {
    assert!(lines("").is_empty());
}

#[test]
fn lines_are_split_at_line_feeds() {
    assert_eq!(lines("abc\ndef"), vec!["abc", "def"]);
    assert_eq!(
        lines("Rust:\nsafe, fast, productive.\nPick three."),
        vec!["Rust:", "safe, fast, productive.", "Pick three."]
    );
    assert_eq!(lines("single"), vec!["single"]);
}

#[test]
fn closing_line_feed_adds_no_line() {
    assert_eq!(lines("abc\n"), vec!["abc"]);
    assert_eq!(lines("abc\ndef\n"), vec!["abc", "def"]);
    assert_eq!(lines("\n"), vec![""]);
}

#[test]
fn empty_lines_are_kept() {
    assert_eq!(lines("a\n\nb"), vec!["a", "", "b"]);
    assert_eq!(lines("\n\n"), vec!["", ""]);
    assert_eq!(lines("\na"), vec!["", "a"]);
    assert_eq!(lines("a\n\n"), vec!["a", ""]);
}

#[test]
fn carriage_return_belongs_to_the_line_ending() {
    assert_eq!(lines("a\r\nb\r\n"), vec!["a", "b"]);
    assert_eq!(lines("\r\n"), vec![""]);
    assert_eq!(lines("a\r\n\r\nb"), vec!["a", "", "b"]);
}

#[test]
fn other_carriage_returns_stay() {
    assert_eq!(lines("a\rb"), vec!["a\rb"]);
    assert_eq!(lines("a\r"), vec!["a\r"]);
    assert_eq!(lines("a\r\r\nb"), vec!["a\r", "b"]);
    assert_eq!(lines("\ra\n"), vec!["\ra"]);
}

#[test]
fn characters_of_several_bytes_are_kept_whole() {
    assert_eq!(lines("h\u{e9}llo\nw\u{f6}rld\n"), vec!["h\u{e9}llo", "w\u{f6}rld"]);
    assert_eq!(lines("\u{20ac}\n\u{1f600}\r\n\u{4e2d}"), vec!["\u{20ac}", "\u{1f600}", "\u{4e2d}"]);
    // U+010A and U+0A0A hold the value of a line feed, but not its byte.
    assert_eq!(lines("\u{10a}\u{a0a}\n"), vec!["\u{10a}\u{a0a}"]);
}

#[test]
fn lines_agree_with_the_standard_library() {
    let texts = [
        "",
        "\n",
        "\r",
        "\r\n",
        "\n\r",
        "a",
        "a\nb",
        "a\nb\n",
        "a\r\nb\r\n",
        "a\r\rb\r",
        "\n\na\n\n",
        "one\ntwo\r\nthree\rfour\n\r\nfive",
        "\u{fc}ber\n\u{1f980}\r\n",
    ];
    for text in texts {
        let expected: Vec<&str> = text.lines().collect();
        assert_eq!(lines(text), expected, "{:?}", text);
    }
}

#[test]
fn lines_borrow_from_the_text() {
    let text = String::from("ab\r\ncd\nef");
    let found = lines(&text);
    let start = text.as_ptr() as usize;
    assert_eq!(found[0].as_ptr() as usize, start);
    assert_eq!(found[1].as_ptr() as usize, start + 4);
    assert_eq!(found[2].as_ptr() as usize, start + 7);
}
