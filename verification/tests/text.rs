use sapf_as_plain_text::utf8_text::{
    ends_with_bytes, slice_text, text_ends_with, text_starts_with,
};
use sapf_as_plain_text::whitespace::{is_white_space_char, trim_text, trim_text_end};

#[test]
fn white_space_is_what_the_standard_library_says() {
    for n in 0u32..=0x10ffff {
        if let Some(c) = char::from_u32(n) {
            assert_eq!(is_white_space_char(c), c.is_whitespace(), "{:#x}", n);
        }
    }
}

#[test]
fn trimming_both_ends() {
    assert_eq!(trim_text("  a b \t\n"), "a b");
    assert_eq!(trim_text("a"), "a");
    assert_eq!(trim_text(""), "");
    assert_eq!(trim_text(" \u{a0}\u{3000}"), "");
    assert_eq!(trim_text("\u{2003}é \u{85}"), "é");
    assert_eq!(trim_text("\u{200b}x\u{200b}"), "\u{200b}x\u{200b}");
    for text in ["", " ", "x ", " x", " x y ", "\r\n", "é", "\u{1680}é\u{2028}"] {
        assert_eq!(trim_text(text), text.trim());
        assert_eq!(trim_text_end(text), text.trim_end());
    }
}

#[test]
fn trimming_the_end() {
    assert_eq!(trim_text_end("  a b \t\r\n"), "  a b");
    assert_eq!(trim_text_end("   "), "");
    assert_eq!(trim_text_end(""), "");
    assert_eq!(trim_text_end(" é\u{a0}"), " é");
}

#[test]
fn prefixes_and_suffixes_of_text() {
    assert!(text_starts_with("Untitled 3", "Untitled "));
    assert!(!text_starts_with("Untitled", "Untitled "));
    assert!(text_starts_with("éa", "é"));
    assert!(!text_starts_with("éa", "e"));
    assert!(text_starts_with("", ""));
    assert!(text_ends_with("a.sapf", ".sapf"));
    assert!(!text_ends_with("a.sapf ", ".sapf"));
    assert!(text_ends_with("aé", "é"));
    assert!(text_ends_with("", ""));
    assert!(!text_ends_with("sapf", ".sapf"));
    assert!(ends_with_bytes(b"abc", b"bc"));
    assert!(ends_with_bytes(b"abc", b""));
    assert!(!ends_with_bytes(b"abc", b"ab"));
    assert!(!ends_with_bytes(b"c", b"bc"));
}

#[test]
fn slices_by_byte_offsets() {
    assert_eq!(slice_text("aébc", 1, 3), "é");
    assert_eq!(slice_text("aébc", 0, 0), "");
    assert_eq!(slice_text("aébc", 3, 5), "bc");
}
