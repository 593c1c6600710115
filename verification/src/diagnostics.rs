//! A span shown in its surroundings: the lines of the source that it
//! touches, with a mark under the characters it covers.
//!
//! Spans count characters; the renderer counts the bytes of the text's
//! UTF-8 form. The positions are converted here.

use crate::ast::span::Span;
use codespan_reporting::diagnostic::{Diagnostic, Label};
use codespan_reporting::files::SimpleFile;
use codespan_reporting::term::{emit_to_string, Config};
use vstd::prelude::*;
use vstd::string::{StrSliceExecFns, StringSliceAdditionalSpecFns};
use vstd::utf8::{
    char_is_scalar, encode_scalar, encode_utf8, encode_utf8_first_scalar,
    encode_utf8_valid_utf8, is_char_boundary, pop_first_scalar,
};

verus! {

/// How many bytes the first `position` characters of `text` take in UTF-8:
/// the byte at which character `position` begins.
pub open spec fn byte_offset(text: Seq<char>, position: int) -> nat {
    encode_utf8(text.take(position)).len()
}

/// The bytes of a text of one character are the bytes of that character.
pub proof fn encoding_of_one(ch: char)
    ensures
        encode_utf8(seq![ch]) == encode_scalar(ch as u32),
{
    let one = seq![ch];
    assert(one.drop_first() =~= Seq::<char>::empty());
    assert(encode_utf8(one.drop_first()) =~= Seq::<u8>::empty());
    assert(encode_utf8(one) =~= encode_scalar(one[0] as u32) + encode_utf8(one.drop_first()));
    assert(encode_utf8(one) =~= encode_scalar(ch as u32));
}

/// The bytes of two texts, one after the other, are the bytes of the two
/// joined.
pub proof fn encoding_of_joined(front: Seq<char>, back: Seq<char>)
    ensures
        encode_utf8(front + back) == encode_utf8(front) + encode_utf8(back),
    decreases front.len(),
{
    if front.len() == 0 {
        assert(front + back =~= back);
        assert(encode_utf8(front) + encode_utf8(back) =~= encode_utf8(back));
    } else {
        encoding_of_joined(front.drop_first(), back);
        assert((front + back).drop_first() =~= front.drop_first() + back);
        assert(encode_utf8(front + back) =~= encode_utf8(front) + encode_utf8(back));
    }
}

/// Byte offsets grow with positions, by the bytes of the character passed,
/// and end with the length of the encoding.
pub proof fn byte_offset_steps(text: Seq<char>, position: int)
    requires
        0 <= position < text.len(),
    ensures
        byte_offset(text, position + 1) == byte_offset(text, position) + encode_scalar(
            text[position] as u32,
        ).len(),
        byte_offset(text, position + 1) <= encode_utf8(text).len(),
{
    let one = seq![text[position]];
    assert(text.take(position + 1) =~= text.take(position) + one);
    encoding_of_joined(text.take(position), one);
    encoding_of_one(text[position]);
    assert(text =~= text.take(position + 1) + text.skip(position + 1));
    encoding_of_joined(text.take(position + 1), text.skip(position + 1));
}

/// Byte offsets are in the order of their positions.
pub proof fn byte_offsets_in_order(text: Seq<char>, earlier: int, later: int)
    requires
        0 <= earlier <= later <= text.len(),
    ensures
        byte_offset(text, earlier) <= byte_offset(text, later),
    decreases later - earlier,
{
    if earlier < later {
        byte_offsets_in_order(text, earlier, later - 1);
        byte_offset_steps(text, later - 1);
    }
}

/// A character begins at every byte offset of a position.
pub proof fn byte_offset_is_boundary(text: Seq<char>, position: int)
    requires
        0 <= position <= text.len(),
    ensures
        byte_offset(text, position) <= encode_utf8(text).len(),
        is_char_boundary(encode_utf8(text), byte_offset(text, position) as int),
    decreases position,
{
    let bytes = encode_utf8(text);
    encode_utf8_valid_utf8(text);
    if position == 0 {
        assert(text.take(0) =~= Seq::<char>::empty());
    } else {
        let rest = text.drop_first();
        byte_offset_is_boundary(rest, position - 1);
        encode_utf8_first_scalar(text);
        char_is_scalar(text[0]);
        let first = encode_scalar(text[0] as u32);
        assert(pop_first_scalar(bytes) =~= encode_utf8(rest));
        assert(text.take(position) =~= seq![text[0]] + rest.take(position - 1));
        encoding_of_joined(seq![text[0]], rest.take(position - 1));
        encoding_of_one(text[0]);
        assert(byte_offset(text, position) == first.len() + byte_offset(rest, position - 1));
        assert(bytes.len() == first.len() + encode_utf8(rest).len());
    }
}

/// How many bytes `ch` takes in UTF-8.
pub fn utf8_width(ch: char) -> (width: usize)
    ensures
        width == encode_scalar(ch as u32).len(),
        1 <= width <= 4,
{
    proof {
        char_is_scalar(ch);
    }
    let code = ch as u32;
    if code < 0x80 {
        1
    } else if code < 0x800 {
        2
    } else if code < 0x1_0000 {
        3
    } else {
        4
    }
}

/// The byte of `source` at which the character at `position` begins; for
/// the position behind the last character, the length in bytes.
pub fn byte_index(source: &str, position: usize) -> (index: usize)
    requires
        position <= source@.len(),
    ensures
        index == byte_offset(source@, position as int),
        index <= source.spec_bytes().len(),
        is_char_boundary(source.spec_bytes(), index as int),
{
    let bytes = source.as_bytes();
    let ghost limit = bytes.len();
    let mut index: usize = 0;
    let mut seen: usize = 0;
    proof {
        vstd::string::axiom_spec_iter(source);
        assert(source@.take(0) =~= Seq::<char>::empty());
    }
    for ch in it: source.chars()
        invariant
            it.seq() == source@,
            limit == encode_utf8(source@).len(),
            limit <= usize::MAX,
            position <= source@.len(),
            seen == if it.index() < position { it.index() } else { position as int },
            index == byte_offset(source@, seen as int),
    {
        if seen < position {
            proof {
                byte_offset_steps(source@, seen as int);
            }
            index = index + utf8_width(ch);
            seen = seen + 1;
        }
    }
    proof {
        byte_offset_is_boundary(source@, position as int);
    }
    index
}

/// The characters of a text that may be missing.
pub open spec fn text_view(text: Option<String>) -> Option<Seq<char>> {
    match text {
        Some(text) => Some(text@),
        None => None,
    }
}

/// What the renderer writes for an error with the message `message` and
/// one primary label, which marks the bytes `[start, end)` of the file
/// `name` with the text `source` and says `mark`; nothing where the
/// renderer reports a failure.
pub uninterp spec fn emitted(
    name: Seq<char>,
    message: Seq<char>,
    mark: Seq<char>,
    source: Seq<char>,
    start: nat,
    end: nat,
) -> Option<Seq<char>>;

/// Calls `codespan_reporting::term::emit_to_string` with the default
/// configuration, on a `SimpleFile` of `name` and `source` and an error
/// diagnostic with `message` and one primary label over the bytes
/// `[start, end)` that says `mark`. Taken on trust: that what is written
/// depends on these six values alone, and that the call returns for a
/// range in order whose two ends are character boundaries of `source`. A
/// failure that the renderer reports becomes `None`.
#[verifier::external_body]
fn emit_context(name: &str, message: &str, mark: &str, source: &str, start: usize, end: usize) -> (text:
    Option<String>)
    requires
        start <= end,
        is_char_boundary(source.spec_bytes(), start as int),
        is_char_boundary(source.spec_bytes(), end as int),
    ensures
        text_view(text) == emitted(name@, message@, mark@, source@, start as nat, end as nat),
{
    let file = SimpleFile::new(name, source);
    let label = Label::primary((), start..end).with_message(mark);
    let diagnostic = Diagnostic::error().with_message(message).with_label(label);
    let mut writer = String::new();
    match emit_to_string(&mut writer, &Config::default(), &file, &diagnostic) {
        Ok(()) => Some(writer),
        Err(_) => None,
    }
}

/// The lines of `source` that `span` touches, as the renderer shows them,
/// with a mark under the characters that the span covers. Nothing for a
/// span that does not lie in `source`, or where the renderer fails.
pub fn show_source_context(source: &str, span: Span) -> (text: Option<String>)
    ensures
        span.spec_end() > source@.len() ==> text is None,
        span.spec_end() <= source@.len() ==> text_view(text) == emitted(
            "example"@,
            "example"@,
            "here"@,
            source@,
            byte_offset(source@, span.spec_start() as int),
            byte_offset(source@, span.spec_end() as int),
        ),
{
    if span.end() > source.unicode_len() {
        return None;
    }
    let start = byte_index(source, span.start());
    let end = byte_index(source, span.end());
    proof {
        byte_offsets_in_order(source@, span.spec_start() as int, span.spec_end() as int);
    }
    emit_context("example", "example", "here", source, start, end)
}

} // verus!
