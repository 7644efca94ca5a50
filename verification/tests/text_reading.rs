use project_git::status_text::{
    first_output_line, has_uncommitted_changes, has_untracked_files, parse_count,
};
use project_git::text::{
    at_most, first_line_in, lines_in, read_i64, read_u64, read_usize, same_text, split_chars,
    to_ascii_lower, to_chars, to_text, tokens_in, trim_chars,
};

fn texts(parts: Vec<&[char]>) -> Vec<String> {
    parts.into_iter().map(to_text).collect()
}

#[test]
fn lines_are_those_of_str_lines() {
    for text in [
        "",
        "\n",
        "a",
        "a\n",
        "a\nb",
        "a\r\nb\r\n",
        "a\r\r\nb\r",
        "\r\n\n\nx",
        "foo\nbar\n\r\nbaz\r",
        "\u{e9}\n\u{1f600}",
    ] {
        let cs = to_chars(text);
        let expected: Vec<String> = text.lines().map(str::to_string).collect();
        assert_eq!(texts(lines_in(&cs)), expected, "{:?}", text);
        assert_eq!(first_line_in(&cs).map(to_text), text.lines().next().map(str::to_string));
    }
}

#[test]
fn parts_are_those_of_str_split() {
    for text in ["", "\0", "a\0b", "\0a\0\0b\0", "abc", "\u{e9}\0x"] {
        let cs = to_chars(text);
        let expected: Vec<String> = text.split('\0').map(str::to_string).collect();
        assert_eq!(texts(split_chars(&cs, '\0')), expected, "{:?}", text);
    }
}

#[test]
fn tokens_are_those_of_split_whitespace() {
    for text in ["", "  ", "a", " a  b\tc ", "\u{2003}x\u{a0}y\u{85}", "100644 blob abc   12"] {
        let cs = to_chars(text);
        let expected: Vec<String> = text.split_whitespace().map(str::to_string).collect();
        assert_eq!(texts(tokens_in(&cs)), expected, "{:?}", text);
    }
}

#[test]
fn trimming_knows_every_white_space_character() {
    for code in 0..0x11_0000u32 {
        if let Some(c) = char::from_u32(code) {
            if c.is_whitespace() || code < 0x300 || (0x1600..0x3100).contains(&code) {
                let cs = vec![c];
                assert_eq!(trim_chars(&cs).is_empty(), c.is_whitespace(), "{:x}", code);
            }
        }
    }
    let text = " \t\u{3000} a b \r\n";
    assert_eq!(to_text(trim_chars(&to_chars(text))), text.trim());
}

#[test]
fn numbers_are_read_as_parse_reads_them() {
    for text in [
        "", "+", "-", "0", "-0", "+7", "-7", "--7", "+-7", "007", " 7", "7 ", "1e3", "\u{664}",
        "9223372036854775807", "9223372036854775808", "-9223372036854775808",
        "-9223372036854775809", "18446744073709551615", "18446744073709551616",
        "000000000000000000000000000001", "99999999999999999999999999",
    ] {
        let cs = to_chars(text);
        assert_eq!(read_i64(&cs), text.parse::<i64>().ok(), "{:?}", text);
        assert_eq!(read_u64(&cs), text.parse::<u64>().ok(), "{:?}", text);
        assert_eq!(read_usize(&cs), text.parse::<usize>().ok(), "{:?}", text);
    }
}

#[test]
fn order_is_that_of_strings() {
    let words = ["", "a", "A", "ab", "b", "\u{e9}", "z", "\u{1f600}", "\u{ffff}"];
    for a in words {
        for b in words {
            assert_eq!(at_most(&to_chars(a), &to_chars(b)), a <= b, "{:?} {:?}", a, b);
            assert_eq!(same_text(a, b), a == b);
        }
    }
}

#[test]
fn ascii_lower_case_leaves_other_letters_alone() {
    assert_eq!(to_ascii_lower("AbCz\u{c4}-9"), "abcz\u{c4}-9");
}

#[test]
fn first_output_line_trims_and_drops_blank_lines() {
    assert_eq!(first_output_line(" main \nother\n"), Some("main".to_string()));
    assert_eq!(first_output_line(""), None);
    assert_eq!(first_output_line("\nmain\n"), None);
    assert_eq!(first_output_line("   \n"), None);
}

#[test]
fn counts_default_to_zero() {
    assert_eq!(parse_count("12\n"), 12);
    assert_eq!(parse_count(" +3 "), 3);
    assert_eq!(parse_count("-3"), 0);
    assert_eq!(parse_count("many"), 0);
    assert_eq!(parse_count("99999999999999999999999"), 0);
}

#[test]
fn porcelain_status_tells_changes_from_untracked_files() {
    let both = " M README.md\n?? DRAFT.md\n";
    assert!(has_uncommitted_changes(both));
    assert!(has_untracked_files(both));
    assert!(!has_uncommitted_changes("?? DRAFT.md\n"));
    assert!(has_untracked_files("?? DRAFT.md\n"));
    assert!(has_uncommitted_changes("A  new\n"));
    assert!(!has_untracked_files("A  new\n"));
    assert!(!has_uncommitted_changes("\n  \n"));
    assert!(!has_untracked_files(""));
    assert!(has_uncommitted_changes(" ?? odd\n"));
}

#[test]
fn a_status_reports_something_unless_it_is_blank() {
    for text in ["", "\n", " \r\n\t\n", "?? a", "\n\n M b\r\n", "??\n", " \n x", "\u{3000}\n?"] {
        let reports = has_uncommitted_changes(text) || has_untracked_files(text);
        assert_eq!(reports, !text.trim().is_empty(), "{:?}", text);
    }
}
