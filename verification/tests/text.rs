use winget_update::lines::split_lines;
use winget_update::search::str_contains;
use winget_update::strings::to_chars;
use winget_update::words::{is_blank_line, is_space_char, join_with_spaces, split_words};

fn strings(items: &[&str]) -> Vec<String> {
    items.iter().map(|s| s.to_string()).collect()
}

#[test]
fn separators_are_the_white_space_of_std() {
    let mut code: u32 = 0;
    while code <= 0x10FFFF {
        if let Some(c) = char::from_u32(code) {
            assert_eq!(is_space_char(c), c.is_whitespace(), "U+{:04X}", code);
        }
        code += 1;
    }
}

#[test]
fn space_tab_and_line_ends_separate() {
    for c in [' ', '\t', '\n', '\r', '\u{a0}', '\u{3000}'] {
        assert!(is_space_char(c));
    }
    for c in ['a', '.', '0', '-', '\u{200b}', 'é'] {
        assert!(!is_space_char(c));
    }
}

#[test]
fn to_chars_keeps_every_character() {
    assert_eq!(to_chars(""), Vec::<char>::new());
    assert_eq!(to_chars("açã o"), vec!['a', 'ç', 'ã', ' ', 'o']);
}

#[test]
fn split_words_collapses_runs_of_separators() {
    assert_eq!(split_words("a  b   c"), strings(&["a", "b", "c"]));
    assert_eq!(split_words("  lead and trail \t"), strings(&["lead", "and", "trail"]));
    assert_eq!(split_words("one"), strings(&["one"]));
    assert_eq!(split_words("tab\tseparated\u{a0}words"), strings(&["tab", "separated", "words"]));
}

#[test]
fn split_words_of_blank_text_is_empty() {
    assert!(split_words("").is_empty());
    assert!(split_words("   ").is_empty());
    assert!(split_words(" \t\r\n").is_empty());
}

#[test]
fn split_words_agrees_with_split_whitespace() {
    let samples = [
        "",
        " ",
        "x",
        " x",
        "x ",
        "Visual Studio Code Microsoft.VisualStudioCode 1.84.0 1.85.1 winget",
        "  a\tb\u{2003}c  d\r",
        "ação  é\u{3000}ñ",
        "-----------------------------",
    ];
    for s in samples {
        let expected: Vec<String> = s.split_whitespace().map(|w| w.to_string()).collect();
        assert_eq!(split_words(s), expected, "{:?}", s);
    }
}

#[test]
fn join_puts_one_space_between_parts() {
    assert_eq!(join_with_spaces(&strings(&[])), "");
    assert_eq!(join_with_spaces(&strings(&["solo"])), "solo");
    assert_eq!(join_with_spaces(&strings(&["a", "b"])), "a b");
    assert_eq!(join_with_spaces(&strings(&["Visual", "Studio", "Code"])), "Visual Studio Code");
}

#[test]
fn joined_words_split_into_the_same_words() {
    let words = strings(&["PowerToys", "(Beta)", "x64"]);
    assert_eq!(split_words(&join_with_spaces(&words)), words);
}

#[test]
fn blank_lines_hold_separators_only() {
    assert!(is_blank_line(""));
    assert!(is_blank_line("   "));
    assert!(is_blank_line("\t \r"));
    assert!(!is_blank_line(" x "));
    assert!(!is_blank_line("-"));
}

#[test]
fn str_contains_finds_parts_anywhere() {
    assert!(str_contains("Discord Canary", "Discord"));
    assert!(str_contains("My Discord", "Discord"));
    assert!(str_contains("xDiscordx", "Discord"));
    assert!(str_contains("Discord", "Discord"));
    assert!(!str_contains("Discor", "Discord"));
    assert!(!str_contains("discord", "Discord"));
    assert!(!str_contains("Dis cord", "Discord"));
    assert!(!str_contains("", "Discord"));
}

#[test]
fn str_contains_finds_the_empty_text_everywhere() {
    assert!(str_contains("", ""));
    assert!(str_contains("abc", ""));
}

#[test]
fn str_contains_agrees_with_std() {
    let hays = ["", "a", "ab", "aab", "abab", "3 upgrades available.", "ação", "aaa"];
    let needles = ["", "a", "b", "ab", "ba", "aab", "abab", "upgrades available", "çã", "aaaa"];
    for hay in hays {
        for needle in needles {
            assert_eq!(str_contains(hay, needle), hay.contains(needle), "{:?} in {:?}", needle, hay);
        }
    }
}

#[test]
fn split_lines_cuts_at_each_line_feed() {
    assert_eq!(split_lines(""), strings(&[""]));
    assert_eq!(split_lines("one"), strings(&["one"]));
    assert_eq!(split_lines("one\ntwo"), strings(&["one", "two"]));
    assert_eq!(split_lines("one\n"), strings(&["one", ""]));
    assert_eq!(split_lines("\n\n"), strings(&["", "", ""]));
    assert_eq!(split_lines("a\r\nb"), strings(&["a\r", "b"]));
}

#[test]
fn split_lines_agrees_with_split_at_line_feeds() {
    let samples = ["", "\n", "a", "a\nb\n\nc", "Nome Id\n----\nrow\n\n", " \r\n x\r\n"];
    for s in samples {
        let expected: Vec<String> = s.split('\n').map(|l| l.to_string()).collect();
        assert_eq!(split_lines(s), expected, "{:?}", s);
    }
}

#[test]
fn line_feed_between_two_texts_joins_their_lines() {
    let first = "a\nb";
    let second = "c\n\nd";
    let mut expected = split_lines(first);
    expected.extend(split_lines(second));
    assert_eq!(split_lines(&format!("{}\n{}", first, second)), expected);
    assert_eq!(expected, strings(&["a", "b", "c", "", "d"]));
}
