use nix_editor::remover::search_backwards_non_whitespace;
use nix_editor::text::{chars_equal, chars_of, has_line_break, push_indent, string_of, whitespace};

#[test]
fn search_backwards_stops_behind_the_last_character_that_is_no_whitespace() {
    let contents = "ab  \n  cd";
    assert_eq!(search_backwards_non_whitespace(7, contents), 2);
    assert_eq!(search_backwards_non_whitespace(4, contents), 2);
    assert_eq!(search_backwards_non_whitespace(2, contents), 2);
    assert_eq!(search_backwards_non_whitespace(1, contents), 1);
    assert_eq!(search_backwards_non_whitespace(9, contents), 9);
    assert_eq!(search_backwards_non_whitespace(0, contents), 0);
}

#[test]
fn search_backwards_reaches_the_start_of_a_blank_text() {
    assert_eq!(search_backwards_non_whitespace(4, " \t\n\r"), 0);
    assert_eq!(search_backwards_non_whitespace(0, ""), 0);
}

#[test]
fn search_backwards_counts_characters() {
    let contents = "é\u{a0}\u{2003}x";
    assert_eq!(search_backwards_non_whitespace(3, contents), 1);
}

#[test]
fn whitespace_is_that_of_the_standard_library() {
    for code in 0..=0x10ffffu32 {
        if let Some(c) = char::from_u32(code) {
            assert_eq!(whitespace(c), c.is_whitespace(), "{:x}", code);
        }
    }
}

#[test]
fn characters_and_strings_convert_both_ways() {
    let text = "a\né 😀";
    let chars = chars_of(text);
    assert_eq!(chars, vec!['a', '\n', 'é', ' ', '😀']);
    assert_eq!(string_of(&chars), text);
    assert_eq!(string_of(&Vec::new()), "");
}

#[test]
fn chars_equal_compares_all_characters() {
    assert!(chars_equal(&chars_of("pkgs"), &chars_of("pkgs")));
    assert!(!chars_equal(&chars_of("pkgs"), &chars_of("pkgz")));
    assert!(!chars_equal(&chars_of("pkgs"), &chars_of("pkg")));
    assert!(chars_equal(&chars_of(""), &chars_of("")));
}

#[test]
fn line_break_is_found() {
    assert!(has_line_break(&chars_of("  \n  ")));
    assert!(!has_line_break(&chars_of("  \t ")));
    assert!(!has_line_break(&chars_of("")));
}

#[test]
fn indentation_is_what_is_no_line_break() {
    let mut out = chars_of("x");
    push_indent(&mut out, &chars_of("\n\n  \t"));
    assert_eq!(string_of(&out), "x   ");
}
