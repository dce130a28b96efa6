//! The text of a document, held in a rope, and the arithmetic of lines and
//! columns over it.
//!
//! Offsets, lines and columns all count characters (Unicode scalar values),
//! never bytes or UTF-16 units. The only line terminator is the line feed.

use vstd::prelude::*;

use ropey::Rope;

use crate::span::Position;

verus! {

#[verifier::external_type_specification]
#[verifier::external_body]
pub struct ExRope(ropey::Rope);

#[verifier::external_type_specification]
#[verifier::external_body]
pub struct ExRopeError(ropey::Error);

/// The characters that a rope holds, in order.
pub uninterp spec fn rope_text(rope: Rope) -> Seq<char>;

/// How many line feeds stand before offset `upto` of `text`.
pub open spec fn line_index(text: Seq<char>, upto: int) -> nat
    decreases upto,
{
    if upto <= 0 || upto > text.len() {
        0
    } else {
        line_index(text, upto - 1) + if text[upto - 1] == '\n' {
            1nat
        } else {
            0nat
        }
    }
}

/// How many characters stand between offset `upto` of `text` and the start of
/// its line.
pub open spec fn column_index(text: Seq<char>, upto: int) -> nat
    decreases upto,
{
    if upto <= 0 || upto > text.len() {
        0
    } else if text[upto - 1] == '\n' {
        0
    } else {
        column_index(text, upto - 1) + 1
    }
}

/// How many lines `text` has: one more than it has line feeds.
pub open spec fn line_count(text: Seq<char>) -> nat {
    line_index(text, text.len() as int) + 1
}

/// Whether `offset` is where line number `line` of `text` begins.
pub open spec fn is_line_start(text: Seq<char>, line: int, offset: int) -> bool {
    &&& 0 <= offset <= text.len()
    &&& line_index(text, offset) == line
    &&& column_index(text, offset) == 0
}

/// The offset behind the first line feed at or after `from`, or the length of
/// the text if there is none.
pub open spec fn after_line_feed(text: Seq<char>, from: int) -> int
    decreases text.len() - from,
{
    if from < 0 || from >= text.len() {
        text.len() as int
    } else if text[from] == '\n' {
        from + 1
    } else {
        after_line_feed(text, from + 1)
    }
}

/// Where line number `line` of `text` begins. The line behind the last one
/// begins at the end of the text.
pub open spec fn line_start(text: Seq<char>, line: nat) -> int
    decreases line,
{
    if line == 0 {
        0
    } else {
        after_line_feed(text, line_start(text, (line - 1) as nat))
    }
}

/// The place of an offset: its line and its column. There is none for an
/// offset beyond the text, nor where a line or column is too large for a
/// place to hold.
pub open spec fn position_of(text: Seq<char>, offset: int) -> Option<Position> {
    if 0 <= offset <= text.len() && line_index(text, offset) <= u32::MAX && column_index(
        text,
        offset,
    ) <= u32::MAX {
        Some(
            Position {
                line: line_index(text, offset) as u32,
                character: column_index(text, offset) as u32,
            },
        )
    } else {
        None
    }
}

/// The offset of a place: where its line begins, plus its character. There is
/// none for a line that the text does not have, nor where the sum lies beyond
/// the text.
pub open spec fn offset_of(text: Seq<char>, position: Position) -> Option<int> {
    if position.line <= line_count(text) && line_start(text, position.line as nat)
        + position.character <= text.len() {
        Some(line_start(text, position.line as nat) + position.character)
    } else {
        None
    }
}

/// A later offset lies on the same or a later line.
pub proof fn lemma_line_index_monotone(text: Seq<char>, a: int, b: int)
    requires
        0 <= a <= b <= text.len(),
    ensures
        line_index(text, a) <= line_index(text, b),
    decreases b - a,
{
    if a < b {
        lemma_line_index_monotone(text, a, b - 1);
    }
}

/// An offset less its column is where its line begins.
pub proof fn lemma_offset_less_column_starts_line(text: Seq<char>, offset: int)
    requires
        0 <= offset <= text.len(),
    ensures
        is_line_start(
            text,
            line_index(text, offset) as int,
            offset - column_index(text, offset),
        ),
    decreases offset,
{
    if offset > 0 && text[offset - 1] != '\n' {
        lemma_offset_less_column_starts_line(text, offset - 1);
    }
}

/// A line begins at one offset only.
pub proof fn lemma_line_start_unique(text: Seq<char>, line: int, a: int, b: int)
    requires
        is_line_start(text, line, a),
        is_line_start(text, line, b),
    ensures
        a == b,
{
    if a < b {
        assert(text[b - 1] == '\n');
        lemma_line_index_monotone(text, a, b - 1);
    } else if b < a {
        assert(text[a - 1] == '\n');
        lemma_line_index_monotone(text, b, a - 1);
    }
}

/// Behind the next line feed a new line begins; where there is no line feed
/// left, the text ends on the same line.
pub proof fn lemma_after_line_feed(text: Seq<char>, from: int)
    requires
        0 <= from <= text.len(),
    ensures
        from <= after_line_feed(text, from) <= text.len(),
        line_index(text, text.len() as int) > line_index(text, from) ==> is_line_start(
            text,
            (line_index(text, from) + 1) as int,
            after_line_feed(text, from),
        ),
        line_index(text, text.len() as int) == line_index(text, from) ==> after_line_feed(
            text,
            from,
        ) == text.len(),
    decreases text.len() - from,
{
    lemma_line_index_monotone(text, from, text.len() as int);
    if from < text.len() && text[from] != '\n' {
        lemma_after_line_feed(text, from + 1);
    } else if from < text.len() {
        lemma_line_index_monotone(text, from + 1, text.len() as int);
    }
}

/// Each line that the text has begins where `line_start` says, and the line
/// behind the last begins at the end of the text.
pub proof fn lemma_line_start(text: Seq<char>, line: nat)
    requires
        line <= line_count(text),
    ensures
        0 <= line_start(text, line) <= text.len(),
        line < line_count(text) ==> is_line_start(text, line as int, line_start(text, line)),
        line == line_count(text) ==> line_start(text, line) == text.len(),
    decreases line,
{
    if line > 0 {
        lemma_line_start(text, (line - 1) as nat);
        lemma_after_line_feed(text, line_start(text, (line - 1) as nat));
    }
}

/// The place of an offset: its line and its column, counted in characters
/// from zero.
pub fn offset_to_position(offset: usize, rope: &Rope) -> (position: Option<Position>)
    ensures
        position == position_of(rope_text(*rope), offset as int),
{
    let ghost text = rope_text(*rope);
    let line = match rope_char_to_line(rope, offset) {
        Ok(line) => line,
        Err(_) => {
            return None;
        },
    };
    proof {
        lemma_line_index_monotone(text, offset as int, text.len() as int);
        lemma_offset_less_column_starts_line(text, offset as int);
    }
    let first = match rope_line_to_char(rope, line) {
        Ok(first) => first,
        Err(_) => {
            return None;
        },
    };
    proof {
        lemma_line_start_unique(
            text,
            line as int,
            first as int,
            offset - column_index(text, offset as int),
        );
    }
    let column = offset - first;
    if line > u32::MAX as usize || column > u32::MAX as usize {
        return None;
    }
    Some(Position::new(line as u32, column as u32))
}

/// The offset of a place: where its line begins, plus its character.
pub fn position_to_offset(position: Position, rope: &Rope) -> (offset: Option<usize>)
    ensures
        offset is Some <==> offset_of(rope_text(*rope), position) is Some,
        offset matches Some(o) ==> offset_of(rope_text(*rope), position) == Some(o as int),
{
    let ghost text = rope_text(*rope);
    let start = match rope_line_to_char(rope, position.line as usize) {
        Ok(start) => start,
        Err(_) => {
            return None;
        },
    };
    proof {
        lemma_line_start(text, position.line as nat);
        if position.line < line_count(text) {
            lemma_line_start_unique(
                text,
                position.line as int,
                start as int,
                line_start(text, position.line as nat),
            );
        }
    }
    let len = rope_len_chars(rope);
    if position.character as usize > len - start {
        return None;
    }
    Some(start + position.character as usize)
}

/// Turning an offset into a place and the place back into an offset gives
/// the offset again: for every offset of a text whose place can be named.
pub proof fn law_offset_round_trip(text: Seq<char>, offset: int)
    requires
        position_of(text, offset) is Some,
    ensures
        offset_of(text, position_of(text, offset)->0) == Some(offset),
{
    let position = position_of(text, offset)->0;
    lemma_line_index_monotone(text, offset, text.len() as int);
    lemma_line_start(text, position.line as nat);
    lemma_offset_less_column_starts_line(text, offset);
    lemma_line_start_unique(
        text,
        position.line as int,
        line_start(text, position.line as nat),
        offset - column_index(text, offset),
    );
}

/// `Rope::from_str` of ropey: the rope holds the characters of `text`.
#[verifier::external_body]
pub(crate) fn rope_from_str(text: &str) -> (rope: Rope)
    ensures
        rope_text(rope) == text@,
{
    Rope::from_str(text)
}

/// `Rope::clone` of ropey: a rope that holds the same characters.
#[verifier::external_body]
pub(crate) fn rope_clone(rope: &Rope) -> (copy: Rope)
    ensures
        rope_text(copy) == rope_text(*rope),
{
    rope.clone()
}

/// `Rope::len_chars` of ropey: the number of characters held.
#[verifier::external_body]
pub(crate) fn rope_len_chars(rope: &Rope) -> (len: usize)
    ensures
        len == rope_text(*rope).len(),
{
    rope.len_chars()
}

/// `Rope::char` of ropey: the character at a character index. The index has
/// to be in bounds, as ropey panics on any other.
#[verifier::external_body]
pub(crate) fn rope_char(rope: &Rope, index: usize) -> (c: char)
    requires
        index < rope_text(*rope).len(),
    ensures
        c == rope_text(*rope)[index as int],
{
    rope.char(index)
}

/// `Rope::try_char_to_line` of ropey: the number of line breaks before a
/// character index, or an error if the index lies beyond the end. The crate is
/// built without its `cr_lines` and `unicode_lines` features, so the line feed
/// is the only line break.
#[verifier::external_body]
pub(crate) fn rope_char_to_line(rope: &Rope, index: usize) -> (line: Result<usize, ropey::Error>)
    ensures
        line is Ok <==> index <= rope_text(*rope).len(),
        line matches Ok(l) ==> l == line_index(rope_text(*rope), index as int),
{
    rope.try_char_to_line(index)
}

/// `Rope::try_line_to_char` of ropey: the index of the first character of a
/// line, the length of the text for the line one past the last, or an error
/// for any line beyond.
#[verifier::external_body]
pub(crate) fn rope_line_to_char(rope: &Rope, line: usize) -> (start: Result<usize, ropey::Error>)
    ensures
        start is Ok <==> line <= line_count(rope_text(*rope)),
        start matches Ok(offset) ==> if line == line_count(rope_text(*rope)) {
            offset == rope_text(*rope).len()
        } else {
            is_line_start(rope_text(*rope), line as int, offset as int)
        },
{
    rope.try_line_to_char(line)
}

/// `Rope::try_remove` of ropey: takes the characters from `start` up to `end`
/// out of the rope, or leaves it as it is and returns an error if that is no
/// range of the text.
#[verifier::external_body]
pub(crate) fn rope_remove(rope: &mut Rope, start: usize, end: usize) -> (done: Result<
    (),
    ropey::Error,
>)
    ensures
        done is Ok <==> start <= end <= rope_text(*old(rope)).len(),
        done is Ok ==> rope_text(*final(rope)) == rope_text(*old(rope)).subrange(0, start as int)
            + rope_text(*old(rope)).subrange(end as int, rope_text(*old(rope)).len() as int),
        done is Err ==> rope_text(*final(rope)) == rope_text(*old(rope)),
{
    rope.try_remove(start..end)
}

/// `Rope::try_insert` of ropey: puts `text` in front of the character at
/// `index`, or leaves the rope as it is and returns an error if the index lies
/// beyond the end.
#[verifier::external_body]
pub(crate) fn rope_insert(rope: &mut Rope, index: usize, text: &str) -> (done: Result<
    (),
    ropey::Error,
>)
    ensures
        done is Ok <==> index <= rope_text(*old(rope)).len(),
        done is Ok ==> rope_text(*final(rope)) == rope_text(*old(rope)).subrange(0, index as int)
            + text@ + rope_text(*old(rope)).subrange(
            index as int,
            rope_text(*old(rope)).len() as int,
        ),
        done is Err ==> rope_text(*final(rope)) == rope_text(*old(rope)),
{
    rope.try_insert(index, text)
}

/// `String::from` of ropey for a rope: the text as one string.
#[verifier::external_body]
pub(crate) fn rope_to_string(rope: &Rope) -> (text: String)
    ensures
        text@ == rope_text(*rope),
{
    String::from(rope)
}

} // verus!
