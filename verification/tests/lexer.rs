use sapf_as_plain_text::assoc::{find_key, has_distinct_keys, insert_entry};
use sapf_as_plain_text::lexer::{
    accepts_byte, get_current_word_for_completion, get_word_at_cursor, is_word_char,
    scan_token_start,
};
use sapf_as_plain_text::utf8_text::{same_text, starts_with_bytes, substring};

#[test]
fn word_chars() {
    for c in 0u8..=255 {
        let expected = c.is_ascii_alphanumeric() || c == b'_';
        assert_eq!(is_word_char(c), expected);
        assert_eq!(accepts_byte(c, false), expected);
        assert_eq!(accepts_byte(c, true), expected || c == b'.');
    }
}

#[test]
fn word_in_the_middle() {
    let text = "foo bar_1 baz";
    for cursor in 4..=9 {
        assert_eq!(get_word_at_cursor(text, cursor), Some(("bar_1".to_string(), 4, 9)));
    }
    assert_eq!(get_word_at_cursor(text, 3), Some(("foo".to_string(), 0, 3)));
    assert_eq!(get_word_at_cursor(text, 0), Some(("foo".to_string(), 0, 3)));
    assert_eq!(get_word_at_cursor(text, 13), Some(("baz".to_string(), 10, 13)));
}

#[test]
fn no_word_between_separators() {
    assert_eq!(get_word_at_cursor("a  b", 2), None);
    assert_eq!(get_word_at_cursor("", 0), None);
    assert_eq!(get_word_at_cursor("+-", 1), None);
}

#[test]
fn word_stops_at_dot() {
    assert_eq!(get_word_at_cursor("osc.sine", 5), Some(("sine".to_string(), 4, 8)));
    assert_eq!(get_word_at_cursor("osc.sine", 4), Some(("sine".to_string(), 4, 8)));
    assert_eq!(get_word_at_cursor("osc.sine", 3), Some(("osc".to_string(), 0, 3)));
}

#[test]
fn cursor_past_the_end() {
    assert_eq!(get_word_at_cursor("abc", 4), None);
    assert_eq!(get_current_word_for_completion("abc", 4), None);
    assert_eq!(get_word_at_cursor("abc", usize::MAX), None);
}

#[test]
fn words_next_to_other_scripts() {
    let text = "é ab ü";
    assert_eq!(get_word_at_cursor(text, 3), Some(("ab".to_string(), 3, 5)));
    assert_eq!(get_word_at_cursor(text, 2), None);
    // An offset inside a character touches no word.
    assert_eq!(get_word_at_cursor(text, 1), None);
    assert_eq!(get_current_word_for_completion(text, 1), None);
    assert_eq!(get_word_at_cursor("éa", 2), Some(("a".to_string(), 2, 3)));
    assert_eq!(get_word_at_cursor("aé", 0), Some(("a".to_string(), 0, 1)));
    assert_eq!(get_word_at_cursor("aé", 1), Some(("a".to_string(), 0, 1)));
}

#[test]
fn completion_query() {
    assert_eq!(get_current_word_for_completion("foo.ba", 6), Some("foo.ba".to_string()));
    assert_eq!(get_current_word_for_completion("x foo.", 6), Some("foo.".to_string()));
    assert_eq!(get_current_word_for_completion("x foo.bar", 5), Some("foo".to_string()));
    assert_eq!(get_current_word_for_completion("x ..", 4), Some("..".to_string()));
    assert_eq!(get_current_word_for_completion("foo ", 4), None);
    assert_eq!(get_current_word_for_completion("foo", 0), None);
    assert_eq!(get_current_word_for_completion("", 0), None);
    assert_eq!(get_current_word_for_completion("a-b_c", 5), Some("b_c".to_string()));
}

#[test]
fn backward_scan() {
    let bytes = "ab.cd ef".as_bytes();
    assert_eq!(scan_token_start(bytes, 5, false), 3);
    assert_eq!(scan_token_start(bytes, 5, true), 0);
    assert_eq!(scan_token_start(bytes, 6, true), 6);
    assert_eq!(scan_token_start(bytes, 0, true), 0);
    assert_eq!(scan_token_start(bytes, 8, false), 6);
}

#[test]
fn substring_by_bytes() {
    assert_eq!(substring("héllo", 0, 3), "hé");
    assert_eq!(substring("héllo", 3, 6), "llo");
    assert_eq!(substring("héllo", 1, 3), "é");
    assert_eq!(substring("abc", 1, 1), "");
    assert_eq!(substring("abc", 0, 3), "abc");
}

#[test]
fn prefixes_and_equality() {
    assert!(starts_with_bytes(b"sine", b"si"));
    assert!(starts_with_bytes(b"sine", b""));
    assert!(starts_with_bytes(b"sine", b"sine"));
    assert!(!starts_with_bytes(b"sine", b"sines"));
    assert!(!starts_with_bytes(b"sine", b"sa"));
    assert!(!starts_with_bytes(b"", b"s"));
    assert!(same_text("abc", "abc"));
    assert!(same_text("", ""));
    assert!(!same_text("abc", "abd"));
    assert!(!same_text("abc", "ab"));
    assert!(!same_text("é", "e"));
}

#[test]
fn association_list() {
    let mut v: Vec<(String, String)> = Vec::new();
    insert_entry(&mut v, "a".to_string(), "1".to_string());
    insert_entry(&mut v, "b".to_string(), "2".to_string());
    insert_entry(&mut v, "a".to_string(), "3".to_string());
    assert_eq!(
        v,
        vec![("a".to_string(), "3".to_string()), ("b".to_string(), "2".to_string())]
    );
    assert_eq!(find_key(&v, "a"), Some(0));
    assert_eq!(find_key(&v, "b"), Some(1));
    assert_eq!(find_key(&v, "c"), None);
    assert!(has_distinct_keys(&v));
    v.push(("b".to_string(), "4".to_string()));
    assert!(!has_distinct_keys(&v));
    assert_eq!(find_key(&v, "b"), Some(2));
}
