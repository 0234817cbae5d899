use sessio::text::{
    collapse_whitespace, is_ascii_alnum_char, is_blank_line, is_whitespace_char,
    path_to_droid_slug, str_eq, take_chars,
};

#[test]
fn collapse_whitespace_joins_words_with_single_spaces() {
    assert_eq!(collapse_whitespace("  hello \t\n world  "), "hello world");
}

#[test]
fn collapse_whitespace_of_blank_text_is_empty() {
    assert_eq!(collapse_whitespace(""), "");
    assert_eq!(collapse_whitespace(" \t\r\n\u{3000}"), "");
}

#[test]
fn collapse_whitespace_handles_unicode_spaces() {
    assert_eq!(
        collapse_whitespace("a\u{00a0}b\u{2003}\u{2003}c\u{85}d"),
        "a b c d"
    );
    assert_eq!(collapse_whitespace("grüße  über"), "grüße über");
}

#[test]
fn collapse_whitespace_matches_split_whitespace() {
    let samples = [
        "one",
        "  leading",
        "trailing  ",
        "a\tb\nc\rd\x0be\x0cf",
        "x\u{2028}y\u{2029}z\u{202f}w\u{205f}v\u{1680}u",
        "\u{200b}zero width is not white space\u{200b}",
    ];
    for s in samples {
        let expected = s.split_whitespace().collect::<Vec<_>>().join(" ");
        assert_eq!(collapse_whitespace(s), expected, "for {:?}", s);
    }
}

#[test]
fn collapse_whitespace_is_idempotent_on_examples() {
    for s in ["  a  b  ", "x\ty", "", "  "] {
        let once = collapse_whitespace(s);
        assert_eq!(collapse_whitespace(&once), once);
    }
}

#[test]
fn whitespace_agrees_with_std_for_every_char() {
    for u in 0u32..=0x10ffff {
        if let Some(c) = char::from_u32(u) {
            assert_eq!(is_whitespace_char(c), c.is_whitespace(), "at U+{:04X}", u);
        }
    }
}

#[test]
fn ascii_alnum_agrees_with_std() {
    for u in 0u32..0x3000 {
        if let Some(c) = char::from_u32(u) {
            assert_eq!(is_ascii_alnum_char(c), c.is_ascii_alphanumeric(), "at U+{:04X}", u);
        }
    }
}

#[test]
fn blank_lines() {
    assert!(is_blank_line(""));
    assert!(is_blank_line(" \t \r"));
    assert!(!is_blank_line("  {}  "));
    assert!(is_blank_line("\u{a0}"));
}

#[test]
fn take_chars_counts_characters() {
    assert_eq!(take_chars("héllo wörld", 4), "héll");
    assert_eq!(take_chars("abc", 80), "abc");
    assert_eq!(take_chars("abc", 0), "");
    let long: String = "x".repeat(100);
    assert_eq!(take_chars(&long, 80).chars().count(), 80);
}

#[test]
fn str_eq_compares_characters() {
    assert!(str_eq("user", "user"));
    assert!(!str_eq("user", "users"));
    assert!(!str_eq("users", "user"));
    assert!(!str_eq("user", "usEr"));
    assert!(str_eq("", ""));
}

#[test]
fn slug_replaces_separators() {
    assert_eq!(path_to_droid_slug("/home/user/my-project"), "-home-user-my-project");
}

#[test]
fn slug_prefixes_a_dash() {
    assert_eq!(path_to_droid_slug("relative/dir"), "-relative-dir");
    assert_eq!(path_to_droid_slug("."), "-");
    assert_eq!(path_to_droid_slug(""), "-");
    assert_eq!(path_to_droid_slug("C:\\Users\\me"), "-C--Users-me");
}

#[test]
fn slug_replaces_non_ascii() {
    assert_eq!(path_to_droid_slug("/tmp/ünï code"), "-tmp--n--code");
}

#[test]
fn slug_is_idempotent_on_examples() {
    for p in ["/a/b", "x y", "-already", ""] {
        let once = path_to_droid_slug(p);
        assert_eq!(path_to_droid_slug(&once), once);
        assert!(once.starts_with('-'));
    }
}
