//! Texts and byte offsets into them.
//!
//! A text is modelled by its characters, `Seq<char>`. Offsets and ranges count
//! bytes of the text's UTF-8 encoding, as `str` does.

use vstd::prelude::*;
use vstd::string::*;
use vstd::utf8::*;

verus! {

/// The UTF-8 encoding of `text`.
pub open spec fn bytes_of(text: Seq<char>) -> Seq<u8> {
    encode_utf8(text)
}

/// Whether the byte offset `at` lies between two characters of `text`, or at
/// one of its ends.
pub open spec fn is_boundary(text: Seq<char>, at: int) -> bool {
    0 <= at <= bytes_of(text).len() && is_char_boundary(bytes_of(text), at)
}

/// Whether the byte interval `[start, end)` denotes a slice of `text`.
pub open spec fn fits(text: Seq<char>, start: int, end: int) -> bool {
    start <= end && is_boundary(text, start) && is_boundary(text, end)
}

/// The characters that the bytes `[start, end)` of `text` encode.
pub open spec fn slice_of(text: Seq<char>, start: int, end: int) -> Seq<char> {
    decode_utf8(bytes_of(text).subrange(start, end))
}

/// A boundary of a text stays a boundary of any slice around it.
pub proof fn lemma_boundary_in_slice(text: Seq<char>, start: int, at: int, end: int)
    requires
        fits(text, start, end),
        start <= at <= end,
        is_boundary(text, at),
    ensures
        valid_utf8(bytes_of(text).subrange(start, end)),
        is_char_boundary(bytes_of(text).subrange(start, end), at - start),
{
    let bytes = bytes_of(text);
    encode_utf8_valid_utf8(text);
    valid_utf8_split(bytes, end);
    let head = bytes.subrange(0, end);
    if start < end {
        is_char_boundary_iff_not_is_continuation_byte(bytes, start);
        is_char_boundary_iff_not_is_continuation_byte(head, start);
    } else {
        is_char_boundary_start_end_of_seq(head);
    }
    valid_utf8_split(head, start);
    let part = head.subrange(start, end);
    assert(part =~= bytes.subrange(start, end));
    if at < end {
        is_char_boundary_iff_not_is_continuation_byte(bytes, at);
        is_char_boundary_iff_not_is_continuation_byte(part, at - start);
    } else {
        is_char_boundary_start_end_of_seq(part);
    }
}

/// Two adjacent slices of a text read as one.
pub proof fn lemma_slices_join(text: Seq<char>, start: int, mid: int, end: int)
    requires
        fits(text, start, mid),
        fits(text, mid, end),
    ensures
        slice_of(text, start, end) == slice_of(text, start, mid) + slice_of(text, mid, end),
{
    let part = bytes_of(text).subrange(start, end);
    lemma_boundary_in_slice(text, start, mid, end);
    decode_utf8_split(part, mid - start);
    assert(part.subrange(0, mid - start) =~= bytes_of(text).subrange(start, mid));
    assert(part.subrange(mid - start, part.len() as int) =~= bytes_of(text).subrange(mid, end));
}

/// The slice from the first byte to the last is the whole text, and both ends
/// are boundaries.
pub proof fn lemma_whole_slice(text: Seq<char>)
    ensures
        fits(text, 0, bytes_of(text).len() as int),
        slice_of(text, 0, bytes_of(text).len() as int) == text,
{
    let bytes = bytes_of(text);
    encode_utf8_valid_utf8(text);
    is_char_boundary_start_end_of_seq(bytes);
    assert(bytes.subrange(0, bytes.len() as int) =~= bytes);
    encode_utf8_decode_utf8(text);
}

/// A slice holds no character exactly when it holds no byte.
pub proof fn lemma_slice_empty(text: Seq<char>, start: int, end: int)
    requires
        fits(text, start, end),
    ensures
        slice_of(text, start, end).len() == 0 <==> start == end,
        bytes_of(slice_of(text, start, end)) == bytes_of(text).subrange(start, end),
{
    let part = bytes_of(text).subrange(start, end);
    lemma_boundary_in_slice(text, start, start, end);
    decode_utf8_encode_utf8(part);
}

/// The bytes of two texts, one after the other, are the bytes of the texts
/// joined.
pub proof fn lemma_bytes_of_add(a: Seq<char>, b: Seq<char>)
    ensures
        bytes_of(a + b) == bytes_of(a) + bytes_of(b),
    decreases a.len(),
{
    if a.len() == 0 {
        assert(a + b =~= b);
        assert(bytes_of(a) + bytes_of(b) =~= bytes_of(b));
    } else {
        assert((a + b).drop_first() =~= a.drop_first() + b);
        lemma_bytes_of_add(a.drop_first(), b);
        assert(bytes_of(a + b) =~= bytes_of(a) + bytes_of(b));
    }
}

/// A text that holds a character holds a byte.
pub proof fn lemma_bytes_of_filled(text: Seq<char>)
    requires
        text.len() > 0,
    ensures
        bytes_of(text).len() > 0,
{
    encode_utf8_first_scalar(text);
}

/// Where one text ends and the next begins is a boundary of the two joined,
/// and each is a slice of the two joined.
pub proof fn lemma_join_is_boundary(a: Seq<char>, b: Seq<char>)
    ensures
        is_boundary(a + b, bytes_of(a).len() as int),
        slice_of(a + b, 0, bytes_of(a).len() as int) == a,
        slice_of(a + b, bytes_of(a).len() as int, bytes_of(a + b).len() as int) == b,
{
    let whole = bytes_of(a + b);
    let at = bytes_of(a).len() as int;
    lemma_bytes_of_add(a, b);
    encode_utf8_valid_utf8(a + b);
    encode_utf8_valid_utf8(b);
    is_char_boundary_start_end_of_seq(whole);
    if b.len() > 0 {
        lemma_bytes_of_filled(b);
        is_char_boundary_start_end_of_seq(bytes_of(b));
        is_char_boundary_iff_not_is_continuation_byte(bytes_of(b), 0);
        is_char_boundary_iff_not_is_continuation_byte(whole, at);
    } else {
        assert(a + b =~= a);
    }
    assert(whole.subrange(0, at) =~= bytes_of(a));
    assert(whole.subrange(at, whole.len() as int) =~= bytes_of(b));
    encode_utf8_decode_utf8(a);
    encode_utf8_decode_utf8(b);
}

/// Where a well-formed encoding stands at the front of another, it ends
/// between two characters of that other.
pub proof fn lemma_prefix_ends_at_boundary(bytes: Seq<u8>, prefix: Seq<u8>)
    requires
        valid_utf8(bytes),
        valid_utf8(prefix),
        prefix.len() <= bytes.len(),
        bytes.subrange(0, prefix.len() as int) == prefix,
    ensures
        is_char_boundary(bytes, prefix.len() as int),
    decreases prefix.len(),
{
    if prefix.len() > 0 {
        assert(bytes[0] == bytes.subrange(0, prefix.len() as int)[0]);
        let width = length_of_first_scalar(prefix);
        assert(width == length_of_first_scalar(bytes));
        assert(1 <= width <= prefix.len());
        let rest = pop_first_scalar(bytes);
        let short = pop_first_scalar(prefix);
        assert(rest.subrange(0, short.len() as int) =~= short) by {
            assert forall|k: int| 0 <= k < short.len() implies rest[k] == short[k] by {
                assert(bytes.subrange(0, prefix.len() as int)[k + width] == prefix[k + width]);
            }
        }
        lemma_prefix_ends_at_boundary(rest, short);
    }
}

/// A text that stands within another, byte for byte, stands there between
/// characters: the place can be sliced out.
pub proof fn lemma_occurrence_fits(text: Seq<char>, literal: Seq<char>, at: int)
    requires
        0 <= at,
        at + bytes_of(literal).len() <= bytes_of(text).len(),
        bytes_of(text).subrange(at, at + bytes_of(literal).len()) == bytes_of(literal),
        literal.len() > 0,
    ensures
        fits(text, at, at + bytes_of(literal).len()),
{
    let hay = bytes_of(text);
    let pattern = bytes_of(literal);
    encode_utf8_valid_utf8(text);
    encode_utf8_valid_utf8(literal);
    lemma_bytes_of_filled(literal);
    is_char_boundary_start_end_of_seq(pattern);
    is_char_boundary_iff_not_is_continuation_byte(pattern, 0);
    assert(hay[at] == hay.subrange(at, at + pattern.len())[0]);
    is_char_boundary_iff_not_is_continuation_byte(hay, at);
    valid_utf8_split(hay, at);
    let rest = hay.subrange(at, hay.len() as int);
    assert(rest.subrange(0, pattern.len() as int) =~= pattern);
    lemma_prefix_ends_at_boundary(rest, pattern);
    let end = at + pattern.len();
    if end < hay.len() {
        is_char_boundary_iff_not_is_continuation_byte(rest, pattern.len() as int);
        is_char_boundary_iff_not_is_continuation_byte(hay, end);
    } else {
        is_char_boundary_start_end_of_seq(hay);
    }
}

/// Between two boundaries of a text with no boundary between them stands
/// one character.
pub proof fn lemma_one_char(text: Seq<char>, at: int, next: int)
    requires
        fits(text, at, next),
        at < next,
        forall|k: int| at < k < next ==> !is_boundary(text, k),
    ensures
        slice_of(text, at, next).len() == 1,
{
    let bytes = bytes_of(text);
    let piece = slice_of(text, at, next);
    lemma_slice_empty(text, at, next);
    encode_utf8_valid_utf8(text);
    encode_utf8_valid_utf8(piece);
    if piece.len() >= 2 {
        let head = piece.take(1);
        let rest = piece.skip(1);
        assert(piece =~= head + rest);
        lemma_join_is_boundary(head, rest);
        lemma_bytes_of_add(head, rest);
        lemma_bytes_of_filled(head);
        lemma_bytes_of_filled(rest);
        let width = bytes_of(head).len() as int;
        is_char_boundary_iff_not_is_continuation_byte(bytes_of(piece), width);
        assert(bytes_of(piece)[width] == bytes[at + width]);
        is_char_boundary_iff_not_is_continuation_byte(bytes, at + width);
        assert(is_boundary(text, at + width));
    }
}

/// The length of `s` in bytes.
pub fn byte_len(s: &str) -> (n: usize)
    ensures
        n == bytes_of(s@).len(),
{
    s.as_bytes().len()
}

/// Whether `at` is an offset at which `s` can be cut.
pub fn is_cut(s: &str, at: usize) -> (b: bool)
    ensures
        b == is_boundary(s@, at as int),
{
    proof {
        encode_utf8_valid_utf8(s@);
        if at > bytes_of(s@).len() {
            reveal_with_fuel(is_char_boundary, 1);
        }
    }
    at <= byte_len(s) && s.is_char_boundary(at)
}

/// The offset behind the character of `s` that starts at `at`: the next
/// offset at which `s` can be cut.
pub fn next_cut(s: &str, at: usize) -> (next: usize)
    requires
        is_boundary(s@, at as int),
        at < bytes_of(s@).len(),
    ensures
        at < next <= bytes_of(s@).len(),
        is_boundary(s@, next as int),
        forall|k: int| at < k < next ==> !is_boundary(s@, k),
        slice_of(s@, at as int, next as int).len() == 1,
{
    let len = byte_len(s);
    proof {
        lemma_whole_slice(s@);
    }
    let mut next = at + 1;
    while !is_cut(s, next)
        invariant
            at < next <= len,
            len == bytes_of(s@).len(),
            is_boundary(s@, len as int),
            forall|k: int| at < k < next ==> !is_boundary(s@, k),
        decreases len - next,
    {
        next += 1;
    }
    proof {
        lemma_one_char(s@, at as int, next as int);
    }
    next
}

/// The part of `s` that its bytes `[start, end)` hold.
pub fn slice<'a>(s: &'a str, start: usize, end: usize) -> (part: &'a str)
    requires
        fits(s@, start as int, end as int),
    ensures
        part@ == slice_of(s@, start as int, end as int),
{
    proof {
        encode_utf8_valid_utf8(s@);
        is_char_boundary_start_end_of_seq(bytes_of(s@));
        lemma_boundary_in_slice(s@, 0, start as int, end as int);
        assert(bytes_of(s@).subrange(0, end as int) =~= s.spec_bytes().subrange(0, end as int));
    }
    let (head, _) = s.split_at(end);
    let (_, part) = head.split_at(start);
    proof {
        encode_utf8_decode_utf8(part@);
        assert(part.spec_bytes() =~= bytes_of(s@).subrange(start as int, end as int));
    }
    part
}

} // verus!
