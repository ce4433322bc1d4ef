//! Byte spans in a line: where a literal and its fields stand.

use vstd::prelude::*;
use vstd::string::*;
use vstd::utf8::*;

verus! {

/// A stretch of a line, in byte offsets into its UTF-8 encoding: from `start` up to,
/// and not including, `end`.
#[derive(Clone, Copy, Debug, PartialEq, Eq, Structural)]
pub struct Span {
    pub start: usize,
    pub end: usize,
}

impl DeepView for Span {
    type V = Span;

    open spec fn deep_view(&self) -> Span {
        *self
    }
}

/// The span lies within the line and neither end cuts a character in two.
pub open spec fn span_fits(line: Seq<char>, span: Span) -> bool {
    let bytes = encode_utf8(line);
    &&& span.start <= span.end <= bytes.len()
    &&& is_char_boundary(bytes, span.start as int)
    &&& is_char_boundary(bytes, span.end as int)
}

/// The text of the line between the byte offsets `start` and `end`.
pub open spec fn text_between(line: Seq<char>, start: int, end: int) -> Seq<char> {
    decode_utf8(encode_utf8(line).subrange(start, end))
}

/// The text that a span covers.
pub open spec fn span_text(line: Seq<char>, span: Span) -> Seq<char> {
    text_between(line, span.start as int, span.end as int)
}

/// A character boundary of a text is one of each prefix that ends on a character boundary
/// at or after it.
pub proof fn lemma_boundary_in_prefix(bytes: Seq<u8>, start: int, end: int)
    requires
        valid_utf8(bytes),
        0 <= start <= end <= bytes.len(),
        is_char_boundary(bytes, start),
        is_char_boundary(bytes, end),
    ensures
        valid_utf8(bytes.subrange(0, end)),
        is_char_boundary(bytes.subrange(0, end), start),
{
    let head = bytes.subrange(0, end);
    valid_utf8_split(bytes, end);
    if start < end {
        is_char_boundary_iff_not_is_continuation_byte(bytes, start);
        is_char_boundary_iff_not_is_continuation_byte(head, start);
    } else {
        is_char_boundary_start_end_of_seq(head);
    }
}

/// Tells whether `span` fits `line`.
pub fn fits(line: &str, span: Span) -> (r: bool)
    ensures
        r == span_fits(line@, span),
{
    proof {
        encode_utf8_valid_utf8(line@);
    }
    span.start <= span.end && line.is_char_boundary(span.start) && line.is_char_boundary(span.end)
}

/// The part of `line` that `span` covers.
pub fn cut<'a>(line: &'a str, span: Span) -> (piece: &'a str)
    requires
        span_fits(line@, span),
    ensures
        piece@ == span_text(line@, span),
{
    let ghost bytes = line.spec_bytes();
    proof {
        encode_utf8_valid_utf8(line@);
        lemma_boundary_in_prefix(bytes, span.start as int, span.end as int);
    }
    let (head, _) = line.split_at(span.end);
    let (_, piece) = head.split_at(span.start);
    proof {
        assert(piece.spec_bytes() =~= bytes.subrange(span.start as int, span.end as int));
        encode_utf8_decode_utf8(piece@);
    }
    piece
}

/// The part of `line` that `span` covers, where the span fits the line.
pub fn slice<'a>(line: &'a str, span: Span) -> (piece: Option<&'a str>)
    ensures
        piece is Some == span_fits(line@, span),
        piece matches Some(text) ==> text@ == span_text(line@, span),
{
    if fits(line, span) {
        Some(cut(line, span))
    } else {
        None
    }
}

/// The part of `line` from the byte offset `start` to its end.
pub fn rest_from<'a>(line: &'a str, start: usize) -> (piece: &'a str)
    requires
        is_char_boundary(encode_utf8(line@), start as int),
    ensures
        piece@ == text_between(line@, start as int, encode_utf8(line@).len() as int),
{
    let (_, piece) = line.split_at(start);
    proof {
        encode_utf8_decode_utf8(piece@);
    }
    piece
}

/// The text between the two ends of a line is the line.
pub proof fn lemma_text_between_ends(line: Seq<char>)
    ensures
        text_between(line, 0, encode_utf8(line).len() as int) == line,
{
    let bytes = encode_utf8(line);
    assert(bytes.subrange(0, bytes.len() as int) =~= bytes);
    encode_utf8_decode_utf8(line);
}

} // verus!
