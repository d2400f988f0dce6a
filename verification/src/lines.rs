//! The lines of a text, and the logical line that a cursor selects. Offsets
//! and lengths are counted in bytes.

use vstd::prelude::*;
use vstd::string::*;
use vstd::utf8::*;
use crate::utf8_text::{bytes_of, lemma_ascii_byte_boundaries, slice_text};
use crate::whitespace::{is_blank, trim_text};

verus! {

/// The offset of the first line feed at or after `from`, or the length where
/// there is none.
pub open spec fn newline_from(bytes: Seq<u8>, from: int) -> int
    decreases bytes.len() - from,
{
    if from < 0 || from >= bytes.len() {
        bytes.len() as int
    } else if bytes[from] == 0x0a {
        from
    } else {
        newline_from(bytes, from + 1)
    }
}

/// A line without the carriage return that stood before its line feed.
pub open spec fn without_carriage_return(line: Seq<u8>) -> Seq<u8> {
    if line.len() > 0 && line.last() == 0x0d {
        line.drop_last()
    } else {
        line
    }
}

/// The lines of the bytes from offset `from` on. A line ends at a line feed,
/// or at a carriage return and a line feed; neither belongs to the line.
/// What follows the last line feed is a line of its own unless it is empty.
pub open spec fn lines_from(bytes: Seq<u8>, from: int) -> Seq<Seq<u8>>
    decreases bytes.len() - from,
{
    let end = newline_from(bytes, from);
    if from < 0 || from >= bytes.len() {
        Seq::empty()
    } else if from <= end < bytes.len() {
        seq![without_carriage_return(bytes.subrange(from, end))] + lines_from(bytes, end + 1)
    } else {
        seq![bytes.subrange(from, bytes.len() as int)]
    }
}

/// The lines of a text, each as its bytes.
pub open spec fn lines_of(content: Seq<char>) -> Seq<Seq<u8>> {
    lines_from(bytes_of(content), 0)
}

/// A list of texts, each as its bytes.
pub open spec fn bytes_of_each(lines: Seq<&str>) -> Seq<Seq<u8>> {
    Seq::new(lines.len(), |i: int| bytes_of(lines[i]@))
}

/// The index of the first line, from line `from` on, that holds the cursor.
/// `char_count` is the offset at which line `from` begins. A line of `n`
/// bytes that begins at `b` holds the cursor offsets from `b` to `b + n`,
/// the last of which is that of its line feed, and the next line begins at
/// `b + n + 1`.
pub open spec fn line_at(lines: Seq<Seq<u8>>, from: int, char_count: int, cursor: int) -> Option<
    int,
>
    decreases lines.len() - from,
{
    if from < 0 || from >= lines.len() {
        None
    } else {
        let line_feed = char_count + lines[from].len();
        if char_count <= cursor <= line_feed {
            Some(from)
        } else {
            line_at(lines, from + 1, line_feed + 1, cursor)
        }
    }
}

/// The first line, from line `from` on, that is not blank; the empty text
/// where there is none.
pub open spec fn first_non_blank(lines: Seq<Seq<u8>>, from: int) -> Seq<u8>
    decreases lines.len() - from,
{
    if from < 0 || from >= lines.len() {
        Seq::empty()
    } else if !is_blank(decode_utf8(lines[from])) {
        lines[from]
    } else {
        first_non_blank(lines, from + 1)
    }
}

/// The logical line of a text for a cursor: the first line that holds the
/// cursor; else the last line; else the first line that is not blank; else
/// the empty text.
pub open spec fn logical_line(content: Seq<char>, cursor: int) -> Seq<char> {
    let lines = lines_of(content);
    decode_utf8(
        match line_at(lines, 0, 0, cursor) {
            Some(i) => lines[i],
            None => if lines.len() > 0 {
                lines.last()
            } else {
                first_non_blank(lines, 0)
            },
        },
    )
}

/// The lines of a text in order, without their line endings.
pub fn text_lines<'a>(content: &'a str) -> (lines: Vec<&'a str>)
    ensures
        bytes_of_each(lines@) == lines_of(content@),
{
    let bytes = content.as_bytes();
    let mut lines: Vec<&'a str> = Vec::new();
    let mut from: usize = 0;
    proof {
        encode_utf8_valid_utf8(content@);
        is_char_boundary_start_end_of_seq(bytes@);
        assert(bytes_of_each(lines@) + lines_from(bytes@, 0) =~= lines_of(content@));
    }
    while from < bytes.len()
        invariant
            from <= bytes@.len(),
            bytes@ == bytes_of(content@),
            valid_utf8(bytes@),
            is_char_boundary(bytes@, from as int),
            is_char_boundary(bytes@, bytes@.len() as int),
            bytes_of_each(lines@) + lines_from(bytes@, from as int) == lines_of(content@),
        decreases bytes@.len() - from,
    {
        let mut end: usize = from;
        while end < bytes.len() && bytes[end] != 0x0a
            invariant
                from <= end <= bytes@.len(),
                newline_from(bytes@, from as int) == newline_from(bytes@, end as int),
            decreases bytes@.len() - end,
        {
            end += 1;
        }
        let ghost collected = bytes_of_each(lines@);
        if end < bytes.len() {
            proof {
                lemma_ascii_byte_boundaries(bytes@, end as int);
            }
            let stop: usize = if end > from && bytes[end - 1] == 0x0d {
                proof {
                    lemma_ascii_byte_boundaries(bytes@, end - 1);
                }
                end - 1
            } else {
                end
            };
            let line = slice_text(content, from, stop);
            lines.push(line);
            proof {
                let whole = bytes@.subrange(from as int, end as int);
                assert(bytes_of(line@) =~= without_carriage_return(whole));
                assert(bytes_of_each(lines@) =~= collected.push(bytes_of(line@)));
                assert(collected + (seq![without_carriage_return(whole)] + lines_from(
                    bytes@,
                    end + 1,
                )) =~= collected.push(bytes_of(line@)) + lines_from(bytes@, end + 1));
            }
            from = end + 1;
        } else {
            let line = slice_text(content, from, end);
            lines.push(line);
            proof {
                assert(bytes_of_each(lines@) =~= collected.push(bytes_of(line@)));
                assert(lines_from(bytes@, end as int) =~= Seq::<Seq<u8>>::empty());
                assert(collected + seq![bytes@.subrange(from as int, bytes@.len() as int)]
                    =~= collected.push(bytes_of(line@)) + lines_from(bytes@, end as int));
            }
            from = end;
        }
    }
    assert(bytes_of_each(lines@) + lines_from(bytes@, from as int) =~= bytes_of_each(lines@));
    lines
}

/// The logical line of `content` for a cursor at byte offset `cursor_pos`.
pub fn current_logical_line(content: &str, cursor_pos: usize) -> (r: String)
    ensures
        r@ == logical_line(content@, cursor_pos as int),
{
    let lines = text_lines(content);
    let ghost all = lines_of(content@);
    let mut i: usize = 0;
    let mut char_count: usize = 0;
    while i < lines.len()
        invariant
            i <= lines@.len(),
            char_count <= cursor_pos,
            all == lines_of(content@),
            bytes_of_each(lines@) == all,
            line_at(all, 0, 0, cursor_pos as int) == line_at(
                all,
                i as int,
                char_count as int,
                cursor_pos as int,
            ),
        decreases lines@.len() - i,
    {
        let line: &str = lines[i];
        let n: usize = line.as_bytes().len();
        let gap: usize = cursor_pos - char_count;
        assert(bytes_of_each(lines@)[i as int] == bytes_of(line@));
        if gap <= n {
            proof {
                encode_utf8_decode_utf8(line@);
            }
            return line.to_owned();
        }
        char_count = char_count + n + 1;
        i += 1;
    }
    if lines.len() > 0 {
        let line: &str = lines[lines.len() - 1];
        proof {
            assert(bytes_of_each(lines@)[lines@.len() - 1] == bytes_of(line@));
            encode_utf8_decode_utf8(line@);
        }
        return line.to_owned();
    }
    let mut j: usize = 0;
    while j < lines.len()
        invariant
            j <= lines@.len(),
            lines@.len() == 0,
        decreases lines@.len() - j,
    {
        let line: &str = lines[j];
        if !trim_text(line).is_empty() {
            return line.to_owned();
        }
        j += 1;
    }
    proof {
        assert(first_non_blank(all, 0) =~= Seq::<u8>::empty());
        assert(bytes_of(Seq::<char>::empty()) =~= Seq::<u8>::empty());
        encode_utf8_decode_utf8(Seq::<char>::empty());
    }
    String::new()
}

} // verus!
