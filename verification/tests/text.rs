use waydo::text::{is_whitespace, split, split_whitespace, starts_with, str_eq};

#[test]
fn whitespace_agrees_with_the_standard_library_on_every_character() {
    for code in 0..=0x10ffffu32 {
        if let Some(c) = char::from_u32(code) {
            assert_eq!(is_whitespace(c), c.is_whitespace(), "U+{:04X}", code);
        }
    }
}

#[test]
fn whitespace_examples() {
    for c in [' ', '\t', '\n', '\r', '\u{b}', '\u{c}', '\u{85}', '\u{a0}', '\u{3000}'] {
        assert!(is_whitespace(c));
    }
    for c in ['a', '-', '0', '\u{8}', '\u{e}', '\u{200b}', '\u{feff}'] {
        assert!(!is_whitespace(c));
    }
}

#[test]
fn str_eq_compares_characters() {
    assert!(str_eq("", ""));
    assert!(str_eq("ctrl", "ctrl"));
    assert!(!str_eq("ctrl", "ctr"));
    assert!(!str_eq("ctr", "ctrl"));
    assert!(!str_eq("ctrl", "ctrL"));
    assert!(str_eq("né", "né"));
    assert!(!str_eq("né", "ne"));
}

#[test]
fn starts_with_tests_a_prefix() {
    assert!(starts_with("key-ctrl-z", "key-"));
    assert!(starts_with("key-", "key-"));
    assert!(!starts_with("key", "key-"));
    assert!(!starts_with("Key-ctrl-z", "key-"));
    assert!(!starts_with(" key-ctrl-z", "key-"));
    assert!(starts_with("anything", ""));
    assert!(starts_with("", ""));
    assert!(!starts_with("", "x"));
}

#[test]
fn split_keeps_empty_pieces() {
    assert_eq!(split("ctrl-shift-z", '-'), ["ctrl", "shift", "z"]);
    assert_eq!(split("z", '-'), ["z"]);
    assert_eq!(split("", '-'), [""]);
    assert_eq!(split("-", '-'), ["", ""]);
    assert_eq!(split("ctrl-", '-'), ["ctrl", ""]);
    assert_eq!(split("-z", '-'), ["", "z"]);
    assert_eq!(split("a--b", '-'), ["a", "", "b"]);
}

#[test]
fn split_agrees_with_the_standard_library() {
    for text in ["", "-", "--", "a", "a-b", "-a-b-", "ctrl-shift-z", "é-ü--ß", "a b-c d"] {
        let expected: Vec<String> = text.split('-').map(|s| s.to_string()).collect();
        assert_eq!(split(text, '-'), expected, "{:?}", text);
    }
}

#[test]
fn split_whitespace_drops_all_white_space() {
    assert_eq!(split_whitespace("screenshot -p false"), ["screenshot", "-p", "false"]);
    assert_eq!(split_whitespace("  a \t b\n"), ["a", "b"]);
    assert_eq!(split_whitespace("one"), ["one"]);
    assert!(split_whitespace("").is_empty());
    assert!(split_whitespace(" \t\r\n").is_empty());
    assert_eq!(split_whitespace("a\u{a0}b\u{3000}c"), ["a", "b", "c"]);
}

#[test]
fn split_whitespace_agrees_with_the_standard_library() {
    for text in [
        "",
        " ",
        "a",
        " a",
        "a ",
        "a b",
        "a  b",
        "\ta\nb\r\nc ",
        "spawn -- alacritty --title 'Btop' -e btop",
        "é \u{2003}ü\u{85}ß",
        "x\u{200b}y z",
    ] {
        let expected: Vec<String> = text.split_whitespace().map(|s| s.to_string()).collect();
        assert_eq!(split_whitespace(text), expected, "{:?}", text);
    }
}

#[test]
fn split_pieces_hold_no_separator_and_rejoin_to_the_text() {
    for text in ["", "-", "--", "a", "a-b", "-a-b-", "ctrl-shift-z", "é-ü--ß", "a b-c d"] {
        let pieces = split(text, '-');
        assert!(!pieces.is_empty());
        assert!(pieces.iter().all(|p| !p.contains('-')));
        assert_eq!(pieces.join("-"), text);
    }
}

#[test]
fn words_are_the_text_without_its_white_space() {
    for text in ["", "  ", "a", " a  b\tc\n", "spawn -- nautilus", "x\u{a0}y\u{2009}z "] {
        let words = split_whitespace(text);
        assert!(words.iter().all(|w| !w.is_empty()));
        assert!(words.iter().all(|w| !w.chars().any(is_whitespace)));
        let kept: String = text.chars().filter(|c| !is_whitespace(*c)).collect();
        assert_eq!(words.concat(), kept);
    }
}
