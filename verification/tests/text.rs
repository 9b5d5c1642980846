use lsp_locations::text;

#[test]
fn white_space_is_the_unicode_property() {
    for c in '\0'..=char::MAX {
        assert_eq!(text::is_white_space(c), c.is_whitespace(), "{:?}", c);
    }
}

#[test]
fn trim_takes_white_space_off_both_ends() {
    for s in ["", "  ", "foo", "  foo bar\t", "\u{3000}x\u{a0}\n", "\u{e9} \u{e9} "] {
        assert_eq!(text::trim(s), s.trim());
        assert_eq!(text::trim_start(s), s.trim_start());
    }
    assert_eq!(text::trim(" \t Foo Bar \n"), "Foo Bar");
    assert_eq!(text::trim_start(" \t Foo Bar \n"), "Foo Bar \n");
}

#[test]
fn contains_finds_substrings() {
    let haystacks = ["", "a", "abab", "aab", "na\u{ef}ve \u{1f600} text"];
    let needles = ["", "a", "ab", "bab", "aab", "abc", "\u{ef}v", "\u{1f600} t", "text"];
    for haystack in haystacks {
        for needle in needles {
            assert_eq!(
                text::contains(haystack, needle),
                haystack.contains(needle),
                "{:?} in {:?}",
                needle,
                haystack
            );
        }
    }
    assert!(text::contains("let value = 1;", "value ="));
    assert!(!text::contains("let value = 1;", "Value"));
}

#[test]
fn length_counts_bytes() {
    assert_eq!(text::len_in_bytes(""), 0);
    assert_eq!(text::len_in_bytes("abc"), 3);
    assert_eq!(text::len_in_bytes("\u{e9}\u{20ac}\u{1f600}"), 9);
}

#[test]
fn decimal_writes_the_number() {
    for n in [0u32, 1, 9, 10, 11, 99, 100, 4294967295, 1000000000, 70601] {
        assert_eq!(text::decimal(n), n.to_string());
    }
    assert_eq!(text::decimal(1024), "1024");
}
