use container_logs::text::{
    ascii_letter, chars_of, is_control, is_whitespace, sanitize, sanitize_chars, str_le,
    string_of, strip_ansi_chars, strip_ansi_codes, trim_end_chars,
};

#[test]
fn chars_and_strings_convert_both_ways() {
    assert_eq!(chars_of("aé日"), vec!['a', 'é', '日']);
    assert_eq!(string_of(&vec!['a', 'é', '日']), "aé日");
    assert_eq!(chars_of(""), Vec::<char>::new());
    assert_eq!(string_of(&Vec::new()), "");
}

#[test]
fn ascii_letters_are_told_apart() {
    assert!(ascii_letter('a'));
    assert!(ascii_letter('z'));
    assert!(ascii_letter('A'));
    assert!(ascii_letter('Z'));
    assert!(!ascii_letter('@'));
    assert!(!ascii_letter('['));
    assert!(!ascii_letter('`'));
    assert!(!ascii_letter('{'));
    assert!(!ascii_letter('1'));
    assert!(!ascii_letter('é'));
}

#[test]
fn strip_removes_color_sequences() {
    assert_eq!(strip_ansi_codes("\x1b[31mred\x1b[0m plain"), "red plain");
    assert_eq!(strip_ansi_codes("\x1b[1;32;40mbold"), "bold");
    assert_eq!(strip_ansi_codes("a\x1b[2Kb"), "ab");
}

#[test]
fn strip_leaves_plain_text_alone() {
    assert_eq!(strip_ansi_codes("hello [world] 100%"), "hello [world] 100%");
    assert_eq!(strip_ansi_codes(""), "");
}

#[test]
fn strip_drops_a_lone_escape() {
    assert_eq!(strip_ansi_codes("a\x1bb"), "ab");
    assert_eq!(strip_ansi_codes("end\x1b"), "end");
    assert_eq!(strip_ansi_codes("\x1b\x1b[0mx"), "x");
}

#[test]
fn strip_eats_an_unfinished_sequence_to_the_end() {
    assert_eq!(strip_ansi_codes("ok\x1b[12;34"), "ok");
    assert_eq!(strip_ansi_codes("ok\x1b["), "ok");
}

#[test]
fn strip_ends_a_sequence_at_the_first_letter() {
    assert_eq!(strip_ansi_codes("\x1b[mm"), "m");
    assert_eq!(strip_ansi_codes("\x1b[?25hshown"), "shown");
    assert_eq!(strip_ansi_chars(&chars_of("x\x1b[0my")), vec!['x', 'y']);
}

#[test]
fn sanitize_drops_control_characters() {
    assert_eq!(sanitize("a\u{0}b\u{7}c\u{7f}d"), "abcd");
    assert_eq!(sanitize("\u{1f}a\u{80}b\u{9f}c\u{a0}"), "abc\u{a0}");
    assert_eq!(sanitize("keep the spaces"), "keep the spaces");
}

#[test]
fn sanitize_turns_tabs_and_line_ends_into_spaces() {
    assert_eq!(sanitize("tab\there"), "tab    here");
    assert_eq!(sanitize("line\nbreak"), "line break");
    assert_eq!(sanitize("line\r\nbreak"), "line break");
    assert_eq!(sanitize("over\rwrite"), "overwrite");
    assert_eq!(sanitize("\t"), "    ");
    assert_eq!(sanitize_chars(&chars_of("a\tb\n")), chars_of("a    b "));
}

#[test]
fn sanitize_strips_sequences_first() {
    assert_eq!(sanitize("web o: \x1b[32mGET\x1b[0m /\u{8}"), "web o: GET /");
    assert_eq!(sanitize_chars(&chars_of("\x1b[1mé\u{1}")), vec!['é']);
}

#[test]
fn trim_end_cuts_trailing_white_space_only() {
    assert_eq!(trim_end_chars(&chars_of("  hello \t\r\n")), chars_of("  hello"));
    assert_eq!(trim_end_chars(&chars_of("a b")), chars_of("a b"));
    assert_eq!(trim_end_chars(&chars_of(" \n ")), Vec::<char>::new());
    assert_eq!(trim_end_chars(&chars_of("x\u{a0}\u{3000}")), chars_of("x"));
    assert_eq!(trim_end_chars(&Vec::new()), Vec::<char>::new());
}

#[test]
fn control_characters_are_the_two_ranges() {
    for c in ['\u{0}', '\t', '\n', '\r', '\u{1b}', '\u{1f}', '\u{7f}', '\u{80}', '\u{9f}'] {
        assert!(is_control(c), "{:?}", c);
        assert!(c.is_control());
    }
    for c in [' ', '~', 'a', '\u{a0}', 'é', '日', '\u{301}', '\u{10ffff}'] {
        assert!(!is_control(c), "{:?}", c);
        assert!(!c.is_control());
    }
}

#[test]
fn control_test_agrees_with_the_standard_one() {
    for code in 0u32..0x3000 {
        if let Some(c) = char::from_u32(code) {
            assert_eq!(is_control(c), c.is_control(), "{:?}", c);
        }
    }
}

#[test]
fn names_compare_character_by_character() {
    assert!(str_le("", ""));
    assert!(str_le("", "a"));
    assert!(!str_le("a", ""));
    assert!(str_le("api", "api"));
    assert!(str_le("api", "api2"));
    assert!(!str_le("api2", "api"));
    assert!(str_le("api", "db"));
    assert!(!str_le("db", "api"));
    assert!(str_le("Web", "web"));
    assert!(!str_le("web", "Web"));
    assert!(str_le("z", "é"));
    assert!(str_le("é", "日"));
    assert!(!str_le("日", "é"));
}

#[test]
fn name_order_agrees_with_the_order_of_strings() {
    let names = ["", "a", "ab", "b", "B", "é", "e\u{301}", "日本", "\u{10000}", "\u{ffff}"];
    for a in names.iter() {
        for b in names.iter() {
            assert_eq!(str_le(a, b), a <= b, "{:?} {:?}", a, b);
        }
    }
}

#[test]
fn white_space_is_the_listed_characters() {
    for c in [' ', '\t', '\n', '\u{b}', '\u{c}', '\r', '\u{85}', '\u{a0}', '\u{1680}'] {
        assert!(is_whitespace(c), "{:?}", c);
    }
    for c in ['\u{2000}', '\u{200a}', '\u{2028}', '\u{2029}', '\u{202f}', '\u{205f}', '\u{3000}'] {
        assert!(is_whitespace(c), "{:?}", c);
    }
    for c in ['a', '\u{0}', '\u{8}', '\u{e}', '\u{1f}', '\u{200b}', '\u{180e}', '\u{feff}', '越'] {
        assert!(!is_whitespace(c), "{:?}", c);
    }
}

#[test]
fn white_space_test_agrees_with_the_standard_one() {
    for code in 0u32..=0x10ffff {
        if let Some(c) = char::from_u32(code) {
            assert_eq!(is_whitespace(c), c.is_whitespace(), "{:?}", c);
        }
    }
}

#[test]
fn control_test_agrees_with_the_standard_one_everywhere() {
    for code in 0u32..=0x10ffff {
        if let Some(c) = char::from_u32(code) {
            assert_eq!(is_control(c), c.is_control(), "{:?}", c);
        }
    }
}
