use rsgrep::search::MatchError;
use rsgrep::{run, Config};

#[test]
fn config_keeps_pattern_and_flag() {
    let config = Config::new(Some("needle"), true).unwrap();
    assert_eq!(config.query, "needle");
    assert!(config.case_sensitive);
    let config = Config::new(Some(""), false).unwrap();
    assert_eq!(config.query, "");
    assert!(!config.case_sensitive);
}

#[test]
fn config_needs_a_pattern() {
    assert_eq!(Config::new(None, false).err(), Some("Didn't get a query string"));
    assert_eq!(Config::new(None, true).err(), Some("Didn't get a query string"));
}

#[test]
fn write_appends_the_line_and_a_line_feed() {
    let mut out = Vec::new();
    rsgrep::write(&mut out, "abc");
    assert_eq!(out, b"abc\n");
    rsgrep::write(&mut out, "");
    assert_eq!(out, b"abc\n\n");
    rsgrep::write(&mut out, "h\u{e9}");
    assert_eq!(out, "abc\n\nh\u{e9}\n".as_bytes());
}

#[test]
fn run_ignores_case_by_default() {
    let config = Config::new(Some("rUsT"), false).unwrap();
    let out = run(config, "Rust:\nsafe, fast, productive.\nPick three.\nTrust me.").unwrap();
    assert_eq!(out, b"Rust:\nTrust me.\n");
}

#[test]
fn run_minds_case_when_told() {
    let config = Config::new(Some("duct"), true).unwrap();
    let out = run(config, "Rust:\nsafe, fast, productive.\nPick three.\nDuct tape.\n").unwrap();
    assert_eq!(out, b"safe, fast, productive.\n");
}

#[test]
fn run_reads_the_query_as_a_pattern() {
    let config = Config::new(Some("^[a-z]+$"), true).unwrap();
    let out = run(config, "alpha\nBeta\ngamma delta\nepsilon\r\n").unwrap();
    assert_eq!(out, b"alpha\nepsilon\n");
}

#[test]
fn run_without_matches_writes_nothing() {
    let config = Config::new(Some("zzz"), false).unwrap();
    assert_eq!(run(config, "abc\ndef").unwrap(), b"");
    let config = Config::new(Some("a"), false).unwrap();
    assert_eq!(run(config, "").unwrap(), b"");
}

#[test]
fn run_refuses_an_invalid_pattern() {
    let config = Config::new(Some("(unclosed"), false).unwrap();
    assert!(matches!(run(config, "abc"), Err(MatchError::InvalidPattern(_))));
}

#[test]
fn render_closes_each_line_with_a_line_feed() {
    assert_eq!(rsgrep::render(&vec!["Rust:", "Trust me."]), b"Rust:\nTrust me.\n");
    assert_eq!(rsgrep::render(&vec!["", "a"]), b"\na\n");
    assert_eq!(rsgrep::render(&Vec::new()), b"");
}

#[test]
fn run_refuses_an_invalid_pattern_whatever_the_input() {
    for input in ["", "\n", "no match here", "(unclosed"] {
        let config = Config::new(Some("(unclosed"), true).unwrap();
        assert!(matches!(run(config, input), Err(MatchError::InvalidPattern(_))));
    }
}

#[test]
fn run_succeeds_where_the_search_does() {
    let input = "Alpha\nbeta\n";
    for query in ["a", "^b", "[", "a{2,1}", ""] {
        let found = rsgrep::search::search_case_insensitive(query, input);
        let config = Config::new(Some(query), false).unwrap();
        let out = run(config, input);
        assert_eq!(out.is_ok(), found.is_ok(), "{:?}", query);
        if let (Ok(out), Ok(found)) = (out, found) {
            assert_eq!(out, rsgrep::render(&found));
        }
    }
}
