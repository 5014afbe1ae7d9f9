use schemafy::doc::{make_doc_comment, wrap_doc_comment};
use schemafy::text::{
    char_width, chars_of, contains_text, path_segments, str_eq, str_less, string_of,
};

#[test]
fn str_eq_compares_characters() {
    assert!(str_eq("abc", "abc"));
    assert!(!str_eq("abc", "abd"));
    assert!(!str_eq("abc", "ab"));
    assert!(str_eq("", ""));
}

#[test]
fn chars_and_back() {
    let chars = chars_of("héllo");
    assert_eq!(chars, vec!['h', 'é', 'l', 'l', 'o']);
    assert_eq!(string_of(&chars, 0, 5), "héllo");
    assert_eq!(string_of(&chars, 1, 3), "él");
    assert_eq!(string_of(&chars, 2, 2), "");
}

#[test]
fn utf8_widths() {
    assert_eq!(char_width('a'), 1);
    assert_eq!(char_width('\u{7f}'), 1);
    assert_eq!(char_width('\u{80}'), 2);
    assert_eq!(char_width('é'), 2);
    assert_eq!(char_width('\u{7ff}'), 2);
    assert_eq!(char_width('\u{800}'), 3);
    assert_eq!(char_width('€'), 3);
    assert_eq!(char_width('\u{ffff}'), 3);
    assert_eq!(char_width('\u{10000}'), 4);
    assert_eq!(char_width('😀'), 4);
    for c in ['a', 'é', '€', '😀'] {
        assert_eq!(char_width(c) as usize, c.len_utf8());
    }
}

#[test]
fn segments_of_a_path() {
    assert_eq!(path_segments("#/definitions/foo"), vec!["#", "definitions", "foo"]);
    assert_eq!(path_segments(""), vec![""]);
    assert_eq!(path_segments("#"), vec!["#"]);
    assert_eq!(path_segments("a//b"), vec!["a", "", "b"]);
    assert_eq!(path_segments("/a/"), vec!["", "a", ""]);
    for s in ["", "#", "a/b", "/", "//", "a/b/c/"] {
        let expected: Vec<String> = s.split('/').map(String::from).collect();
        assert_eq!(path_segments(s), expected);
    }
}

#[test]
fn contains_text_finds_names() {
    let names = vec!["a".to_string(), "bc".to_string()];
    assert!(contains_text(&names, "a"));
    assert!(contains_text(&names, "bc"));
    assert!(!contains_text(&names, "b"));
    assert!(!contains_text(&Vec::new(), "a"));
}

#[test]
fn doc_comment_of_one_line() {
    assert_eq!(make_doc_comment("hello world", 100), "/// hello world\n");
}

#[test]
fn doc_comment_of_nothing() {
    assert_eq!(make_doc_comment("", 100), "///\n");
}

#[test]
fn doc_comment_drops_one_space_at_the_end() {
    assert_eq!(make_doc_comment("foo ", 100), "/// foo\n");
    assert_eq!(make_doc_comment("foo  ", 100), "/// foo \n");
}

#[test]
fn doc_comment_keeps_line_feeds() {
    assert_eq!(make_doc_comment("a\nb", 100), "/// a\n/// b\n");
    assert_eq!(make_doc_comment("a\n\nb", 100), "/// a\n/// \n/// b\n");
    assert_eq!(make_doc_comment("a\n", 100), "/// a\n///\n");
}

#[test]
fn doc_comment_turns_white_space_into_one_space() {
    assert_eq!(make_doc_comment("a\tb", 100), "/// a b\n");
    assert_eq!(make_doc_comment("a  b", 100), "/// a  b\n");
    assert_eq!(make_doc_comment("a\u{a0}b", 100), "/// a b\n");
}

#[test]
fn doc_comment_wraps_at_the_limit() {
    // "/// aaa " is 8 wide, so "bbb" would reach the limit of 8.
    assert_eq!(make_doc_comment("aaa bbb", 8), "/// aaa \n/// bbb\n");
    // With a limit of 12 the line "/// aaa bbb" is 11 wide and stays.
    assert_eq!(make_doc_comment("aaa bbb", 12), "/// aaa bbb\n");
    // The first word wraps too where it alone reaches the limit.
    assert_eq!(make_doc_comment("aaaa", 8), "/// \n/// aaaa\n");
    assert_eq!(make_doc_comment("aaa", 8), "/// aaa\n");
}

#[test]
fn doc_comment_counts_bytes() {
    // "ééé" is three characters and six bytes: 4 + 6 reaches 10.
    assert_eq!(make_doc_comment("ééé", 10), "/// \n/// ééé\n");
    assert_eq!(make_doc_comment("ééé", 11), "/// ééé\n");
}

#[test]
fn doc_comment_with_a_limit_of_zero_breaks_before_every_word() {
    assert_eq!(make_doc_comment("a b", 0), "/// \n/// a \n/// b\n");
}

#[test]
fn doc_comment_over_a_given_mask() {
    let chars = vec!['a', '-', 'b'];
    assert_eq!(wrap_doc_comment(&chars, &vec![false, true, false], 100), "/// a b\n");
    assert_eq!(wrap_doc_comment(&chars, &vec![false, false, false], 100), "/// a-b\n");
    assert_eq!(wrap_doc_comment(&chars, &vec![true, true, true], 100), "///   \n");
    assert_eq!(wrap_doc_comment(&Vec::new(), &Vec::new(), 100), "///\n");
}

#[test]
fn long_description_is_wrapped_like_the_lines_of_a_paragraph() {
    let text = "one two three four five six seven eight nine ten";
    let out = make_doc_comment(text, 20);
    assert_eq!(out, "/// one two three \n/// four five six \n/// seven eight \n/// nine ten\n");
    for line in out.lines() {
        assert!(line.starts_with("///"));
        assert!(line.len() <= 20);
    }
}

#[test]
fn order_of_strings() {
    let words = ["", "a", "ab", "abc", "b", "B", "z", "é", "€", "😀", "a€", "a😀", "aé"];
    for a in words {
        for b in words {
            assert_eq!(str_less(a, b), a < b, "{:?} {:?}", a, b);
        }
    }
    assert!(str_less("id", "name"));
    assert!(!str_less("name", "id"));
    assert!(!str_less("same", "same"));
}
