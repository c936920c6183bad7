use airaa_chat::text::contains_text;
use airaa_chat::text::{
    contains, decimal_string, ends_with, find, first_line, join, replace_all, same_text, split, starts_with, trim,
};

#[test]
fn trim_strips_unicode_whitespace_at_both_ends() {
    assert_eq!(trim("  hello world \n"), "hello world");
    assert_eq!(trim("\u{3000}\u{a0}x\u{2003}\t"), "x");
    assert_eq!(trim("   "), "");
    assert_eq!(trim(""), "");
    assert_eq!(trim("a b"), "a b");
    for s in [" \t mixed \u{85}", "\r\nline\r\n", "\u{200b}zero"] {
        assert_eq!(trim(s), s.trim());
    }
}

#[test]
fn searching() {
    assert!(contains("--- bob disconnected ---", "disconnected"));
    assert!(!contains("connected", "disconnected"));
    assert!(contains("abc", ""));
    assert!(starts_with("/w bob hi", "/w "));
    assert!(!starts_with("/w", "/w "));
    assert!(ends_with("abc.onion", ".onion"));
    assert!(!ends_with("onion", ".onion"));
    assert_eq!(find("a, b, c", ", "), Some(1));
    assert_eq!(find("abc", ", "), None);
    assert!(same_text("x", "x"));
    assert!(!same_text("x", "y"));
}

#[test]
fn split_matches_std_split() {
    for s in ["a, b, c", "", "single", ", lead", "trail, ", "a,, b", "ä, ö, ü"] {
        let expected: Vec<String> = s.split(", ").map(|x| x.to_string()).collect();
        assert_eq!(split(s, ", "), expected);
    }
}

#[test]
fn join_and_replace() {
    let parts = vec!["x".to_string(), "y".to_string(), "z".to_string()];
    assert_eq!(join(&parts, ", "), "x, y, z");
    assert_eq!(join(&Vec::new(), ", "), "");
    assert_eq!(replace_all("tcp://0.tcp.ngrok.io:1234", "tcp://", ""), "0.tcp.ngrok.io:1234");
    assert_eq!(replace_all("aXbXc", "X", "--"), "a--b--c");
}

#[test]
fn first_line_drops_the_line_ending() {
    assert_eq!(first_line("C:\\ngrok.exe\r\nC:\\other\\ngrok.exe"), "C:\\ngrok.exe");
    assert_eq!(first_line("/usr/bin/ngrok\n/bin/ngrok"), "/usr/bin/ngrok");
    assert_eq!(first_line("only"), "only");
    assert_eq!(first_line("ends\r"), "ends\r");
}

#[test]
fn decimal_text() {
    assert_eq!(decimal_string(0), "0");
    assert_eq!(decimal_string(7), "7");
    assert_eq!(decimal_string(1024), "1024");
    assert_eq!(decimal_string(u64::MAX), u64::MAX.to_string());
}

#[test]
fn membership_of_a_list_of_names() {
    let names = vec!["alice".to_string(), "bob".to_string()];
    assert!(contains_text(&names, &"bob".to_string()));
    assert!(!contains_text(&names, &"Bob".to_string()));
    assert!(!contains_text(&Vec::new(), &"bob".to_string()));
}
