//! Locating the token that touches a cursor. Offsets are byte offsets, and a
//! token is made of ASCII letters, digits and underscores; the completion
//! query also takes in the category separator `.`.

use vstd::prelude::*;
use vstd::string::*;
use vstd::utf8::*;
use crate::utf8_text::{bytes_of, lemma_ascii_byte_boundaries, substring};

verus! {

/// A byte that can stand in a word: an ASCII letter, a digit or `_`.
pub open spec fn is_word_byte(c: u8) -> bool {
    ||| 0x30 <= c <= 0x39
    ||| 0x41 <= c <= 0x5a
    ||| 0x61 <= c <= 0x7a
    ||| c == 0x5f
}

/// A byte that can stand in a completion query: a word byte or `.`.
pub open spec fn is_query_byte(c: u8) -> bool {
    is_word_byte(c) || c == 0x2e
}

/// Which bytes a backward scan takes in.
pub open spec fn accepts(c: u8, with_dot: bool) -> bool {
    if with_dot {
        is_query_byte(c)
    } else {
        is_word_byte(c)
    }
}

/// Where the token that ends at `pos` begins: the scan goes back from `pos`
/// over accepted bytes and stops at the first byte that is not.
pub open spec fn token_start(bytes: Seq<u8>, pos: int, with_dot: bool) -> int
    decreases pos,
{
    if 0 < pos <= bytes.len() && accepts(bytes[pos - 1], with_dot) {
        token_start(bytes, pos - 1, with_dot)
    } else {
        pos
    }
}

/// Where the word that begins at `pos` ends: the scan goes forward from `pos`
/// over word bytes.
pub open spec fn word_end(bytes: Seq<u8>, pos: int) -> int
    decreases bytes.len() - pos,
{
    if 0 <= pos < bytes.len() && is_word_byte(bytes[pos]) {
        word_end(bytes, pos + 1)
    } else {
        pos
    }
}

/// The start of a token is the one offset at or before `pos` from which every
/// byte up to `pos` is accepted and before which stands none that is.
pub proof fn lemma_token_start(bytes: Seq<u8>, pos: int, with_dot: bool)
    requires
        0 <= pos <= bytes.len(),
    ensures
        0 <= token_start(bytes, pos, with_dot) <= pos,
        forall|i: int|
            token_start(bytes, pos, with_dot) <= i < pos ==> accepts(#[trigger] bytes[i], with_dot),
        token_start(bytes, pos, with_dot) > 0 ==> !accepts(
            bytes[token_start(bytes, pos, with_dot) - 1],
            with_dot,
        ),
    decreases pos,
{
    if 0 < pos && accepts(bytes[pos - 1], with_dot) {
        lemma_token_start(bytes, pos - 1, with_dot);
    }
}

/// The end of a word is the one offset at or after `pos` up to which every
/// byte from `pos` is a word byte and at which stands none.
pub proof fn lemma_word_end(bytes: Seq<u8>, pos: int)
    requires
        0 <= pos <= bytes.len(),
    ensures
        pos <= word_end(bytes, pos) <= bytes.len(),
        forall|i: int| pos <= i < word_end(bytes, pos) ==> is_word_byte(#[trigger] bytes[i]),
        word_end(bytes, pos) < bytes.len() ==> !is_word_byte(bytes[word_end(bytes, pos)]),
    decreases bytes.len() - pos,
{
    if pos < bytes.len() && is_word_byte(bytes[pos]) {
        lemma_word_end(bytes, pos + 1);
    }
}

/// Whether a byte can stand in a word.
pub fn is_word_char(c: u8) -> (r: bool)
    ensures
        r == is_word_byte(c),
{
    (c >= 0x30 && c <= 0x39) || (c >= 0x41 && c <= 0x5a) || (c >= 0x61 && c <= 0x7a) || c == 0x5f
}

/// Whether a backward scan takes the byte in.
pub fn accepts_byte(c: u8, with_dot: bool) -> (r: bool)
    ensures
        r == accepts(c, with_dot),
{
    is_word_char(c) || (with_dot && c == 0x2e)
}

/// The backward scan itself: the start of the token that ends at `pos`.
pub fn scan_token_start(bytes: &[u8], pos: usize, with_dot: bool) -> (start: usize)
    requires
        pos <= bytes@.len(),
    ensures
        start == token_start(bytes@, pos as int, with_dot),
        start <= pos,
{
    let mut start: usize = pos;
    while start > 0 && accepts_byte(bytes[start - 1], with_dot)
        invariant
            start <= pos <= bytes@.len(),
            token_start(bytes@, pos as int, with_dot) == token_start(
                bytes@,
                start as int,
                with_dot,
            ),
        decreases start,
    {
        start -= 1;
    }
    start
}

/// The word under or next to the cursor, with the byte offsets where it begins
/// and ends. There is none where the cursor lies past the end of the text or
/// has no word byte on either side.
pub fn get_word_at_cursor(text: &str, cursor_pos: usize) -> (r: Option<(String, usize, usize)>)
    ensures
        match r {
            Some((word, start, end)) => {
                &&& cursor_pos <= bytes_of(text@).len()
                &&& start == token_start(bytes_of(text@), cursor_pos as int, false)
                &&& end == word_end(bytes_of(text@), cursor_pos as int)
                &&& start < end
                &&& bytes_of(word@) == bytes_of(text@).subrange(start as int, end as int)
            },
            None => {
                ||| cursor_pos > bytes_of(text@).len()
                ||| token_start(bytes_of(text@), cursor_pos as int, false) == word_end(
                    bytes_of(text@),
                    cursor_pos as int,
                )
            },
        },
{
    let bytes = text.as_bytes();
    if cursor_pos > bytes.len() {
        return None;
    }
    let start = scan_token_start(bytes, cursor_pos, false);
    let mut end: usize = cursor_pos;
    while end < bytes.len() && is_word_char(bytes[end])
        invariant
            cursor_pos <= end <= bytes@.len(),
            word_end(bytes@, cursor_pos as int) == word_end(bytes@, end as int),
        decreases bytes@.len() - end,
    {
        end += 1;
    }
    if start < end {
        proof {
            let b = bytes_of(text@);
            encode_utf8_valid_utf8(text@);
            lemma_token_start(b, cursor_pos as int, false);
            lemma_word_end(b, cursor_pos as int);
            assert(is_word_byte(b[start as int]));
            assert(is_word_byte(b[end - 1]));
            lemma_ascii_byte_boundaries(b, start as int);
            lemma_ascii_byte_boundaries(b, end - 1);
        }
        Some((substring(text, start, end), start, end))
    } else {
        None
    }
}

/// The completion query: the run of word bytes and dots that ends at the
/// cursor. There is none where the cursor lies past the end of the text or no
/// such byte stands right before it.
pub fn get_current_word_for_completion(text: &str, cursor_pos: usize) -> (r: Option<String>)
    ensures
        match r {
            Some(query) => {
                &&& cursor_pos <= bytes_of(text@).len()
                &&& token_start(bytes_of(text@), cursor_pos as int, true) < cursor_pos
                &&& bytes_of(query@) == bytes_of(text@).subrange(
                    token_start(bytes_of(text@), cursor_pos as int, true),
                    cursor_pos as int,
                )
            },
            None => {
                ||| cursor_pos > bytes_of(text@).len()
                ||| token_start(bytes_of(text@), cursor_pos as int, true) == cursor_pos
            },
        },
{
    let bytes = text.as_bytes();
    if cursor_pos > bytes.len() {
        return None;
    }
    let start = scan_token_start(bytes, cursor_pos, true);
    if start < cursor_pos {
        proof {
            let b = bytes_of(text@);
            encode_utf8_valid_utf8(text@);
            lemma_token_start(b, cursor_pos as int, true);
            assert(accepts(b[start as int], true));
            assert(accepts(b[cursor_pos - 1], true));
            lemma_ascii_byte_boundaries(b, start as int);
            lemma_ascii_byte_boundaries(b, cursor_pos - 1);
        }
        Some(substring(text, start, cursor_pos))
    } else {
        None
    }
}

} // verus!
