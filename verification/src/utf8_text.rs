//! Byte-level facts about UTF-8 text and the verified helpers built on them.
//!
//! Offsets into a string are byte offsets. The byte string of a text `s` is
//! `encode_utf8(s@)`, which is what `str::as_bytes` hands out.

use vstd::prelude::*;
use vstd::string::*;
use vstd::utf8::*;

verus! {

/// The bytes of the text with the given characters.
pub open spec fn bytes_of(chars: Seq<char>) -> Seq<u8> {
    encode_utf8(chars)
}

/// A byte below 0x80 is a whole character: its offset and the next one are
/// both character boundaries.
pub proof fn lemma_ascii_byte_boundaries(bytes: Seq<u8>, i: int)
    requires
        valid_utf8(bytes),
        0 <= i < bytes.len(),
        bytes[i] <= 0x7f,
    ensures
        is_char_boundary(bytes, i),
        is_char_boundary(bytes, i + 1),
    decreases bytes.len(),
{
    is_char_boundary_iff_is_leading_byte(bytes, i);
    reveal_with_fuel(is_char_boundary, 2);
    reveal_with_fuel(valid_utf8, 2);
    let k = length_of_first_scalar(bytes);
    let rest = pop_first_scalar(bytes);
    if i == 0 {
        assert(is_char_boundary(rest, 0));
    } else {
        assert(is_char_boundary(rest, i - k));
        assert(rest[i - k] == bytes[i]);
        lemma_ascii_byte_boundaries(rest, i - k);
    }
}

/// A boundary of a text is a boundary of each prefix that ends on a boundary
/// at or after it.
pub proof fn lemma_boundary_in_prefix(bytes: Seq<u8>, start: int, end: int)
    requires
        valid_utf8(bytes),
        0 <= start <= end <= bytes.len(),
        is_char_boundary(bytes, start),
        is_char_boundary(bytes, end),
    ensures
        valid_utf8(bytes.subrange(0, end)),
        is_char_boundary(bytes.subrange(0, end), start),
{
    let head = bytes.subrange(0, end);
    valid_utf8_split(bytes, end);
    if start == end {
        is_char_boundary_start_end_of_seq(head);
    } else {
        is_char_boundary_iff_not_is_continuation_byte(bytes, start);
        is_char_boundary_iff_not_is_continuation_byte(head, start);
    }
}

/// The text between two byte offsets.
pub fn slice_text<'a>(text: &'a str, start: usize, end: usize) -> (r: &'a str)
    requires
        start <= end <= bytes_of(text@).len(),
        is_char_boundary(bytes_of(text@), start as int),
        is_char_boundary(bytes_of(text@), end as int),
    ensures
        bytes_of(r@) == bytes_of(text@).subrange(start as int, end as int),
{
    proof {
        encode_utf8_valid_utf8(text@);
        lemma_boundary_in_prefix(bytes_of(text@), start as int, end as int);
    }
    let (head, _) = text.split_at(end);
    let (_, mid) = head.split_at(start);
    assert(mid.spec_bytes() =~= bytes_of(text@).subrange(start as int, end as int));
    mid
}

/// The text between two byte offsets, as an owned string.
pub fn substring(text: &str, start: usize, end: usize) -> (r: String)
    requires
        start <= end <= bytes_of(text@).len(),
        is_char_boundary(bytes_of(text@), start as int),
        is_char_boundary(bytes_of(text@), end as int),
    ensures
        bytes_of(r@) == bytes_of(text@).subrange(start as int, end as int),
{
    slice_text(text, start, end).to_owned()
}

/// Whether `prefix` starts `text`, byte for byte.
pub fn starts_with_bytes(text: &[u8], prefix: &[u8]) -> (r: bool)
    ensures
        r == prefix@.is_prefix_of(text@),
{
    if prefix.len() > text.len() {
        return false;
    }
    let mut i: usize = 0;
    while i < prefix.len()
        invariant
            i <= prefix.len() <= text.len(),
            forall|j: int| 0 <= j < i ==> prefix@[j] == text@[j],
        decreases prefix.len() - i,
    {
        if prefix[i] != text[i] {
            return false;
        }
        i += 1;
    }
    assert(prefix@ =~= text@.subrange(0, prefix@.len() as int));
    true
}

/// A scalar below 0x80 is encoded as itself; every byte of any other
/// scalar's encoding is 0x80 or more.
proof fn lemma_scalar_bytes(c: u32)
    by (bit_vector)
    ensures
        c <= 0x7f ==> leading_byte_width_1(c) == c,
        leading_byte_width_2(c) >= 0x80,
        leading_byte_width_3(c) >= 0x80,
        leading_byte_width_4(c) >= 0x80,
        last_continuation_byte(c) >= 0x80,
        second_last_continuation_byte(c) >= 0x80,
        third_last_continuation_byte(c) >= 0x80,
{
}

/// The encoding of one character holds a given ASCII byte exactly when the
/// character is that byte.
pub proof fn lemma_ascii_byte_in_scalar(c: char, b: u8)
    requires
        b <= 0x7f,
    ensures
        encode_scalar(c as u32).contains(b) <==> c as u32 == b as u32,
        encode_scalar(c as u32).len() >= 1,
{
    let s = c as u32;
    let e = encode_scalar(s);
    lemma_scalar_bytes(s);
    if e.contains(b) {
        let i = choose|i: int| 0 <= i < e.len() && e[i] == b;
        assert(e[i] == b);
    }
    if s == b as u32 {
        assert(e[0] == b);
    }
}

/// The text of one ASCII character is that one byte.
pub proof fn lemma_ascii_char_bytes(b: u8)
    requires
        b <= 0x7f,
    ensures
        bytes_of(seq![b as char]) == seq![b],
{
    let chars = seq![b as char];
    lemma_scalar_bytes(b as u32);
    assert(chars.drop_first() =~= Seq::<char>::empty());
    assert(bytes_of(chars.drop_first()) =~= Seq::<u8>::empty());
    assert(bytes_of(chars) == encode_scalar(chars[0] as u32) + bytes_of(chars.drop_first()));
    assert(bytes_of(chars) =~= seq![b]);
}

/// A text has a given ASCII byte among its bytes exactly when it has the
/// character of that byte among its characters.
pub proof fn lemma_ascii_byte_in_text(chars: Seq<char>, b: u8)
    requires
        b <= 0x7f,
    ensures
        bytes_of(chars).contains(b) <==> chars.contains(b as char),
    decreases chars.len(),
{
    if chars.len() == 0 {
        assert(bytes_of(chars) =~= Seq::<u8>::empty());
        if bytes_of(chars).contains(b) {
            let i = choose|i: int| 0 <= i < bytes_of(chars).len() && bytes_of(chars)[i] == b;
        }
        if chars.contains(b as char) {
            let i = choose|i: int| 0 <= i < chars.len() && chars[i] == b as char;
        }
    } else {
        let head = encode_scalar(chars[0] as u32);
        let rest = chars.drop_first();
        let tail = bytes_of(rest);
        assert(bytes_of(chars) == head + tail);
        lemma_ascii_byte_in_scalar(chars[0], b);
        lemma_ascii_byte_in_text(rest, b);
        char_u32_cast(chars[0], chars[0] as u32);
        char_u32_cast(b as char, b as u32);
        if bytes_of(chars).contains(b) {
            let i = choose|i: int| 0 <= i < (head + tail).len() && (head + tail)[i] == b;
            if i < head.len() {
                assert(head[i] == b);
                assert(head.contains(b));
                assert(chars[0] == b as char);
            } else {
                assert(tail[i - head.len()] == b);
                assert(tail.contains(b));
                let j = choose|j: int| 0 <= j < rest.len() && rest[j] == b as char;
                assert(chars[j + 1] == b as char);
            }
        }
        if chars.contains(b as char) {
            let j = choose|j: int| 0 <= j < chars.len() && chars[j] == b as char;
            if j == 0 {
                assert(head.contains(b));
                let i = choose|i: int| 0 <= i < head.len() && head[i] == b;
                assert((head + tail)[i] == b);
            } else {
                assert(rest[j - 1] == b as char);
                assert(rest.contains(b as char));
                let i = choose|i: int| 0 <= i < tail.len() && tail[i] == b;
                assert((head + tail)[head.len() + i] == b);
            }
        }
    }
}

/// One text starts another byte for byte exactly when it does so character
/// for character.
pub proof fn lemma_prefix_bytes_chars(text: Seq<char>, prefix: Seq<char>)
    ensures
        bytes_of(prefix).is_prefix_of(bytes_of(text)) <==> prefix.is_prefix_of(text),
    decreases prefix.len(),
{
    let p = bytes_of(prefix);
    let t = bytes_of(text);
    if prefix.is_prefix_of(text) {
        let rest = text.subrange(prefix.len() as int, text.len() as int);
        assert(text =~= prefix + rest);
        lemma_bytes_of_concat(prefix, rest);
        assert(p =~= t.subrange(0, p.len() as int));
    }
    if p.is_prefix_of(t) {
        if prefix.len() == 0 {
            assert(prefix =~= text.subrange(0, 0));
        } else {
            encode_utf8_first_scalar(prefix);
            let w = length_of_first_scalar(p);
            assert(1 <= w <= p.len());
            assert(forall|i: int| 0 <= i < p.len() ==> p[i] == t.subrange(0, p.len() as int)[i]);
            if text.len() == 0 {
                assert(t.len() == 0);
            }
            encode_utf8_first_scalar(text);
            assert(p[0] == t[0]);
            assert(length_of_first_scalar(t) == w);
            if w >= 2 {
                assert(p[1] == t[1]);
            }
            if w >= 3 {
                assert(p[2] == t[2]);
            }
            if w >= 4 {
                assert(p[3] == t[3]);
            }
            assert(decode_first_scalar(p) == decode_first_scalar(t));
            char_u32_cast(prefix[0], prefix[0] as u32);
            char_u32_cast(text[0], text[0] as u32);
            assert(prefix[0] == text[0]);
            let pr = prefix.drop_first();
            let tr = text.drop_first();
            assert(p == encode_scalar(prefix[0] as u32) + bytes_of(pr));
            assert(t == encode_scalar(text[0] as u32) + bytes_of(tr));
            assert(encode_scalar(prefix[0] as u32).len() == w);
            assert(bytes_of(pr) =~= p.subrange(w, p.len() as int));
            assert(bytes_of(tr) =~= t.subrange(w, t.len() as int));
            assert(bytes_of(pr) =~= bytes_of(tr).subrange(0, bytes_of(pr).len() as int)) by {
                assert forall|i: int| 0 <= i < bytes_of(pr).len() implies bytes_of(pr)[i]
                    == bytes_of(tr)[i] by {
                    assert(bytes_of(pr)[i] == p[w + i]);
                    assert(bytes_of(tr)[i] == t[w + i]);
                    assert(p[w + i] == t.subrange(0, p.len() as int)[w + i]);
                }
            }
            lemma_prefix_bytes_chars(tr, pr);
            assert(prefix =~= text.subrange(0, prefix.len() as int)) by {
                assert forall|i: int| 0 <= i < prefix.len() implies prefix[i] == text[i] by {
                    if i > 0 {
                        assert(pr[i - 1] == tr.subrange(0, pr.len() as int)[i - 1]);
                    }
                }
            }
        }
    }
}

/// One text ends another byte for byte exactly when it does so character
/// for character.
pub proof fn lemma_suffix_bytes_chars(text: Seq<char>, suffix: Seq<char>)
    ensures
        bytes_of(suffix).is_suffix_of(bytes_of(text)) <==> suffix.is_suffix_of(text),
{
    let p = bytes_of(suffix);
    let t = bytes_of(text);
    if suffix.is_suffix_of(text) {
        let head = text.subrange(0, text.len() - suffix.len());
        assert(text =~= head + suffix);
        lemma_bytes_of_concat(head, suffix);
        assert(p =~= t.subrange(t.len() - p.len(), t.len() as int));
    }
    if p.is_suffix_of(t) {
        let k = t.len() - p.len();
        encode_utf8_valid_utf8(text);
        encode_utf8_valid_utf8(suffix);
        if suffix.len() == 0 {
            assert(p.len() == 0);
            assert(suffix =~= text.subrange(text.len() as int, text.len() as int));
        } else {
            encode_utf8_first_scalar(suffix);
            assert(p[0] == t.subrange(k, t.len() as int)[0]);
            assert(t[k] == p[0]);
            is_char_boundary_iff_is_leading_byte(t, k);
            decode_utf8_split(t, k);
            encode_utf8_decode_utf8(text);
            encode_utf8_decode_utf8(suffix);
            let head = decode_utf8(t.subrange(0, k));
            assert(t.subrange(k, t.len() as int) =~= p);
            assert(text =~= head + suffix);
            assert(suffix =~= text.subrange(text.len() - suffix.len(), text.len() as int));
        }
    }
}

/// Whether `prefix` starts `text`.
pub fn text_starts_with(text: &str, prefix: &str) -> (r: bool)
    ensures
        r == prefix@.is_prefix_of(text@),
{
    proof {
        lemma_prefix_bytes_chars(text@, prefix@);
    }
    starts_with_bytes(text.as_bytes(), prefix.as_bytes())
}

/// Whether `suffix` ends `text`.
pub fn text_ends_with(text: &str, suffix: &str) -> (r: bool)
    ensures
        r == suffix@.is_suffix_of(text@),
{
    proof {
        lemma_suffix_bytes_chars(text@, suffix@);
    }
    ends_with_bytes(text.as_bytes(), suffix.as_bytes())
}

/// Whether `suffix` ends `text`, byte for byte.
pub fn ends_with_bytes(text: &[u8], suffix: &[u8]) -> (r: bool)
    ensures
        r == suffix@.is_suffix_of(text@),
{
    if suffix.len() > text.len() {
        return false;
    }
    let offset: usize = text.len() - suffix.len();
    let mut i: usize = 0;
    while i < suffix.len()
        invariant
            i <= suffix@.len() <= text@.len(),
            offset == text@.len() - suffix@.len(),
            text@.len() <= usize::MAX,
            forall|j: int| 0 <= j < i ==> suffix@[j] == text@[offset + j],
        decreases suffix@.len() - i,
    {
        if suffix[i] != text[offset + i] {
            assert(text@.subrange(offset as int, text@.len() as int)[i as int] != suffix@[i as int]);
            return false;
        }
        i += 1;
    }
    assert(suffix@ =~= text@.subrange(offset as int, text@.len() as int));
    true
}

/// The bytes of two texts joined are the bytes of the first followed by the
/// bytes of the second.
pub proof fn lemma_bytes_of_concat(a: Seq<char>, b: Seq<char>)
    ensures
        bytes_of(a + b) == bytes_of(a) + bytes_of(b),
    decreases a.len(),
{
    if a.len() == 0 {
        assert(a + b =~= b);
        assert(bytes_of(a) + bytes_of(b) =~= bytes_of(b));
    } else {
        assert((a + b).drop_first() =~= a.drop_first() + b);
        assert((a + b)[0] == a[0]);
        lemma_bytes_of_concat(a.drop_first(), b);
        assert(bytes_of(a + b) =~= bytes_of(a) + bytes_of(b));
    }
}

/// Whether two texts are the same.
pub fn same_text(a: &str, b: &str) -> (r: bool)
    ensures
        r == (a@ == b@),
{
    let x = a.as_bytes();
    let y = b.as_bytes();
    proof {
        lemma_bytes_decide_text(a@, b@);
    }
    if x.len() != y.len() {
        return false;
    }
    let mut i: usize = 0;
    while i < x.len()
        invariant
            i <= x@.len(),
            x@.len() == y@.len(),
            (x@ == y@) <==> (a@ == b@),
            forall|j: int| 0 <= j < i ==> x@[j] == y@[j],
        decreases x@.len() - i,
    {
        if x[i] != y[i] {
            assert(x@[i as int] != y@[i as int]);
            return false;
        }
        i += 1;
    }
    assert(x@ =~= y@);
    true
}

/// Equal texts have equal bytes, and the other way round.
pub proof fn lemma_bytes_decide_text(a: Seq<char>, b: Seq<char>)
    ensures
        (bytes_of(a) == bytes_of(b)) <==> (a == b),
{
    encode_utf8_decode_utf8(a);
    encode_utf8_decode_utf8(b);
}

} // verus!
