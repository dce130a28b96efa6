//! Writing out what was parsed and parsing it again: when the writer's
//! output is a fixed point.
//!
//! It is one wherever every block of the parsed text is written as a line
//! that reads back as itself: a line without line feed that, read by
//! itself, is a paragraph whose bold and italic text is closed and that is
//! written as the line again. Lines of plain text are such lines, and so
//! are headings with a body of plain text, written with their markers in
//! front, and lines whose closed bold and italic text uses no marker but the
//! style's own. It is none for every text: a heading whose body is a line
//! break is written as two lines and read back as one.

use vstd::prelude::*;

use crate::format::{
    block_separator, emphasis_char, rendered, rendered_joined, repeated, FormattingOptions,
    HeadingStyle,
};
use crate::node::Cst;
use crate::parse::{
    blocks_from, char_at, closes_emphasis, document_of, emphasis_at, emphasis_items, ends_text,
    inline_at, is_emphasis_marker, lemma_emphasis_at, lemma_emphasis_items, lemma_inline_at,
    lemma_marker_free_run, lemma_paragraph_items, lemma_star_run_end_bounds,
    lemma_text_run_end_bounds, marker_free, marks_heading, paragraph_at, paragraph_items,
    star_run_end, text_run_end,
};
use crate::strings::is_blank;

verus! {

/// The lines of a text from `pos` on that are not empty, each up to the next
/// character that ends plain text.
pub open spec fn line_texts(text: Seq<char>, pos: int) -> Seq<Seq<char>>
    decreases text.len() - pos,
{
    if pos < 0 || pos >= text.len() {
        Seq::empty()
    } else if text[pos] == '\n' {
        line_texts(text, pos + 1)
    } else {
        let end = text_run_end(text, pos);
        if end <= pos || end > text.len() {
            Seq::empty()
        } else {
            seq![text.subrange(pos, end)] + line_texts(text, end)
        }
    }
}

/// The text of each of `nodes`.
pub open spec fn rendered_each(nodes: Seq<Cst>, options: FormattingOptions) -> Seq<Seq<char>> {
    Seq::new(nodes.len(), |i: int| rendered(nodes[i], options))
}

/// The first `count` of `parts` with `separator` between each two.
pub open spec fn joined_upto(parts: Seq<Seq<char>>, count: nat, separator: Seq<char>) -> Seq<char>
    decreases count,
{
    if count == 0 || count > parts.len() {
        Seq::empty()
    } else if count == 1 {
        parts[0]
    } else {
        joined_upto(parts, (count - 1) as nat, separator) + separator + parts[count - 1]
    }
}

/// Whether a text is a line of plain text: not empty, and without a
/// character that ends plain text.
pub open spec fn is_plain_line(line: Seq<char>) -> bool {
    line.len() > 0 && forall|i: int| 0 <= i < line.len() ==> !ends_text(#[trigger] line[i])
}

/// Whether every text of a sequence is a line of plain text.
pub open spec fn all_plain_lines(lines: Seq<Seq<char>>) -> bool {
    forall|i: int| 0 <= i < lines.len() ==> is_plain_line(#[trigger] lines[i])
}

/// Whether a text is made of line feeds, one at least.
pub open spec fn is_line_feeds(text: Seq<char>) -> bool {
    text.len() > 0 && forall|i: int| 0 <= i < text.len() ==> #[trigger] text[i] == '\n'
}

/// Joining the texts of nodes is joining what each of them is written as.
pub proof fn lemma_rendered_joined_each(
    nodes: Seq<Cst>,
    count: nat,
    separator: Seq<char>,
    options: FormattingOptions,
)
    requires
        count <= nodes.len(),
    ensures
        rendered_joined(nodes, count, separator, options) == joined_upto(
            rendered_each(nodes, options),
            count,
            separator,
        ),
    decreases count,
{
    if count > 1 {
        lemma_rendered_joined_each(nodes, (count - 1) as nat, separator, options);
    }
}

/// The blocks of a text without markers are written as its lines.
pub proof fn lemma_marker_free_lines(text: Seq<char>, pos: int, options: FormattingOptions)
    requires
        marker_free(text),
        0 <= pos <= text.len(),
    ensures
        rendered_each(blocks_from(text, pos), options) == line_texts(text, pos),
        all_plain_lines(line_texts(text, pos)),
    decreases text.len() - pos,
{
    if pos < text.len() {
        if text[pos] == '\n' {
            lemma_marker_free_lines(text, pos + 1, options);
        } else {
            assert(!is_emphasis_marker(text[pos]));
            assert(star_run_end(text, pos) == pos);
            assert(!marks_heading(text, pos));
            lemma_marker_free_run(text, pos);
            lemma_marker_free_run(text, pos + 1);
            let end = text_run_end(text, pos);
            let line = text.subrange(pos, end);
            let (first, next) = inline_at(text, pos);
            assert(next == end);
            assert(paragraph_items(text, end).0 =~= Seq::<Cst>::empty());
            assert(paragraph_items(text, pos).0 =~= seq![first]);
            let (block, after) = paragraph_at(text, pos);
            assert(rendered(first, options) == line);
            assert(rendered(block, options) == line) by {
                reveal_with_fuel(rendered_joined, 2);
            }
            lemma_marker_free_lines(text, end, options);
            let rest = blocks_from(text, end);
            let blocks = seq![block] + rest;
            assert(blocks_from(text, pos) == blocks);
            assert(rendered_each(blocks, options) =~= seq![line] + rendered_each(rest, options));
            assert(line_texts(text, pos) == seq![line] + line_texts(text, end));
            assert(is_plain_line(line));
            let lines = line_texts(text, pos);
            assert forall|i: int| 0 <= i < lines.len() implies is_plain_line(#[trigger] lines[i]) by {
                if i > 0 {
                    assert(lines[i] == line_texts(text, end)[i - 1]);
                }
            }
        }
    } else {
        assert(rendered_each(blocks_from(text, pos), options) =~= line_texts(text, pos));
    }
}

/// A run of plain text ends where it ends in a longer text, if what follows
/// begins with a line feed.
pub proof fn lemma_run_before_line_feed(front: Seq<char>, back: Seq<char>, pos: int)
    requires
        0 <= pos <= front.len(),
        back.len() > 0,
        back[0] == '\n',
    ensures
        text_run_end(front + back, pos) == text_run_end(front, pos),
    decreases front.len() - pos,
{
    let whole = front + back;
    if pos < front.len() {
        assert(whole[pos] == front[pos]);
        if !ends_text(front[pos]) {
            lemma_run_before_line_feed(front, back, pos + 1);
        }
    } else {
        assert(whole[pos] == back[0]);
    }
}

/// A line of plain text is one run of plain text.
pub proof fn lemma_plain_line_run(front: Seq<char>, line: Seq<char>, pos: int)
    requires
        is_plain_line(line),
        front.len() <= pos <= front.len() + line.len(),
    ensures
        text_run_end(front + line, pos) == front.len() + line.len(),
    decreases front.len() + line.len() - pos,
{
    let whole = front + line;
    if pos < whole.len() {
        assert(whole[pos] == line[pos - front.len()]);
        lemma_plain_line_run(front, line, pos + 1);
    }
}

/// Behind line feeds and one more line of plain text, a text has that line
/// as its last.
pub proof fn lemma_lines_of_tail(front: Seq<char>, feeds: Seq<char>, line: Seq<char>, pos: int)
    requires
        is_line_feeds(feeds),
        is_plain_line(line),
        front.len() <= pos <= front.len() + feeds.len(),
    ensures
        line_texts(front + feeds + line, pos) == seq![line],
    decreases front.len() + feeds.len() - pos,
{
    let whole = front + feeds + line;
    if pos < front.len() + feeds.len() {
        assert(whole[pos] == feeds[pos - front.len()]);
        lemma_lines_of_tail(front, feeds, line, pos + 1);
    } else {
        assert(whole[pos] == line[0]);
        lemma_plain_line_run(front + feeds, line, pos);
        assert(whole.subrange(pos, whole.len() as int) =~= line);
        assert(line_texts(whole, whole.len() as int) =~= Seq::<Seq<char>>::empty());
        assert(line_texts(whole, pos) =~= seq![line]);
    }
}

/// A text followed by line feeds and one more line of plain text has the
/// lines it had before, and that line behind them.
pub proof fn lemma_lines_with_one_more(
    front: Seq<char>,
    feeds: Seq<char>,
    line: Seq<char>,
    pos: int,
)
    requires
        marker_free(front),
        is_line_feeds(feeds),
        is_plain_line(line),
        0 <= pos <= front.len(),
    ensures
        line_texts(front + feeds + line, pos) == line_texts(front, pos) + seq![line],
    decreases front.len() - pos,
{
    let whole = front + feeds + line;
    let back = feeds + line;
    assert(whole =~= front + back);
    if pos < front.len() {
        assert(whole[pos] == front[pos]);
        if front[pos] == '\n' {
            lemma_lines_with_one_more(front, feeds, line, pos + 1);
        } else {
            assert(back[0] == feeds[0]);
            lemma_run_before_line_feed(front, back, pos);
            lemma_text_run_end_bounds(front, pos);
            lemma_text_run_end_bounds(front, pos + 1);
            let end = text_run_end(front, pos);
            assert(!is_emphasis_marker(front[pos]));
            if end > pos {
                assert(whole.subrange(pos, end) =~= front.subrange(pos, end));
                lemma_lines_with_one_more(front, feeds, line, end);
                assert(line_texts(whole, pos) =~= seq![front.subrange(pos, end)] + line_texts(
                    whole,
                    end,
                ));
                assert(line_texts(front, pos) =~= seq![front.subrange(pos, end)] + line_texts(
                    front,
                    end,
                ));
            }
        }
    } else {
        lemma_lines_of_tail(front, feeds, line, pos);
        assert(line_texts(front, pos) =~= Seq::<Seq<char>>::empty());
    }
}

/// Lines of plain text joined by line feeds are the lines of the text they
/// make.
pub proof fn lemma_lines_of_joined(lines: Seq<Seq<char>>, count: nat, feeds: Seq<char>)
    requires
        all_plain_lines(lines),
        is_line_feeds(feeds),
        count <= lines.len(),
    ensures
        line_texts(joined_upto(lines, count, feeds), 0) == lines.take(count as int),
    decreases count,
{
    let text = joined_upto(lines, count, feeds);
    if count == 0 {
        assert(line_texts(text, 0) =~= lines.take(0));
    } else if count == 1 {
        let line = lines[0];
        assert(is_plain_line(line));
        assert(Seq::<char>::empty() + line =~= line);
        lemma_plain_line_run(Seq::empty(), line, 0);
        assert(text.subrange(0, text.len() as int) =~= line);
        assert(line_texts(text, text.len() as int) =~= Seq::<Seq<char>>::empty());
        assert(line_texts(text, 0) =~= seq![line]);
        assert(lines.take(1) =~= seq![line]);
    } else {
        let front = joined_upto(lines, (count - 1) as nat, feeds);
        let line = lines[count - 1];
        assert(is_plain_line(line));
        lemma_lines_of_joined(lines, (count - 1) as nat, feeds);
        lemma_joined_is_marker_free(lines, (count - 1) as nat, feeds);
        lemma_lines_with_one_more(front, feeds, line, 0);
        assert(lines.take(count as int) =~= lines.take(count - 1) + seq![line]);
    }
}

/// Lines of plain text joined by line feeds make a text without markers.
pub proof fn lemma_joined_is_marker_free(lines: Seq<Seq<char>>, count: nat, feeds: Seq<char>)
    requires
        all_plain_lines(lines),
        is_line_feeds(feeds),
        count <= lines.len(),
    ensures
        marker_free(joined_upto(lines, count, feeds)),
    decreases count,
{
    let text = joined_upto(lines, count, feeds);
    if count == 1 {
        assert(is_plain_line(lines[0]));
    } else if count > 1 {
        let front = joined_upto(lines, (count - 1) as nat, feeds);
        let line = lines[count - 1];
        assert(is_plain_line(line));
        lemma_joined_is_marker_free(lines, (count - 1) as nat, feeds);
        assert forall|i: int| 0 <= i < text.len() implies !is_emphasis_marker(
            #[trigger] text[i],
        ) by {
            if i < front.len() {
                assert(text[i] == front[i]);
            } else if i < front.len() + feeds.len() {
                assert(text[i] == feeds[i - front.len()]);
            } else {
                assert(text[i] == line[i - front.len() - feeds.len()]);
            }
        }
    }
}

/// What the writer makes of a parsed text without markers, it makes again of
/// its own output: the output is without markers too, and parsing and
/// writing it gives it back.
pub proof fn law_marker_free_text_is_written_the_same_again(
    text: Seq<char>,
    options: FormattingOptions,
)
    requires
        marker_free(text),
    ensures
        marker_free(rendered(document_of(text), options)),
        rendered(document_of(rendered(document_of(text), options)), options) == rendered(
            document_of(text),
            options,
        ),
{
    let feeds = block_separator(options);
    assert(is_line_feeds(feeds));
    let blocks = blocks_from(text, 0);
    let lines = line_texts(text, 0);
    lemma_marker_free_lines(text, 0, options);
    lemma_rendered_joined_each(blocks, blocks.len(), feeds, options);
    let once = rendered(document_of(text), options);
    assert(lines.len() == blocks.len());
    assert(once == joined_upto(lines, lines.len(), feeds));
    lemma_joined_is_marker_free(lines, lines.len(), feeds);
    lemma_lines_of_joined(lines, lines.len(), feeds);
    assert(lines.take(lines.len() as int) =~= lines);
    let blocks_again = blocks_from(once, 0);
    lemma_marker_free_lines(once, 0, options);
    lemma_rendered_joined_each(blocks_again, blocks_again.len(), feeds, options);
    assert(rendered_each(blocks_again, options).len() == blocks_again.len());
}

/// Whether a text holds no line feed.
pub open spec fn no_line_feed(text: Seq<char>) -> bool {
    forall|i: int| 0 <= i < text.len() ==> #[trigger] text[i] != '\n'
}

/// Whether a text is empty or begins with a line feed: what can follow a
/// line.
pub open spec fn ends_line_there(back: Seq<char>) -> bool {
    back.len() == 0 || back[0] == '\n'
}

/// Whether the inline node at `pos` is closed: it is text, or bold or italic
/// text that ends with its closing marker and holds closed nodes only.
pub open spec fn inline_closed(text: Seq<char>, pos: int) -> bool
    decreases text.len() - pos, 2nat,
{
    if 0 <= pos < text.len() && is_emphasis_marker(text[pos]) {
        emphasis_closed(text, pos, char_at(text, pos + 1) == text[pos])
    } else {
        !(0 <= pos < text.len() && text[pos] == '\n')
    }
}

/// Whether the bold (`double`) or italic node at `pos` ends with its closing
/// marker and holds closed nodes only.
pub open spec fn emphasis_closed(text: Seq<char>, pos: int, double: bool) -> bool
    decreases text.len() - pos, 1nat,
{
    if pos < 0 || pos >= text.len() {
        true
    } else {
        let width: int = if double {
            2
        } else {
            1
        };
        let opened = if pos + width <= text.len() {
            pos + width
        } else {
            text.len() as int
        };
        items_closed(text, opened, text[pos], double) && closes_emphasis(
            text,
            emphasis_items(text, opened, text[pos], double).1,
            text[pos],
            double,
        )
    }
}

/// Whether the nodes from `pos` up to the marker that closes them are
/// closed.
pub open spec fn items_closed(text: Seq<char>, pos: int, marker: char, double: bool) -> bool
    decreases text.len() - pos, 3nat,
{
    if pos < 0 || pos >= text.len() || closes_emphasis(text, pos, marker, double) {
        true
    } else {
        let next = inline_at(text, pos).1;
        inline_closed(text, pos) && (next <= pos || next > text.len() || items_closed(
            text,
            next,
            marker,
            double,
        ))
    }
}

/// Whether the nodes from `pos` to the end of the line are closed.
pub open spec fn line_closed(text: Seq<char>, pos: int) -> bool
    decreases text.len() - pos,
{
    if pos < 0 || pos >= text.len() || text[pos] == '\n' {
        true
    } else {
        let next = inline_at(text, pos).1;
        inline_closed(text, pos) && (next <= pos || next > text.len() || line_closed(text, next))
    }
}

/// Whether a text is a line that reads back as itself: it is not empty and
/// holds no line feed; read by itself it is a paragraph, not a heading; the
/// bold and italic text in it is closed; and what the paragraph is written
/// as is the line again.
pub open spec fn is_settled_line(line: Seq<char>, options: FormattingOptions) -> bool {
    &&& line.len() > 0
    &&& no_line_feed(line)
    &&& !marks_heading(line, 0)
    &&& line_closed(line, 0)
    &&& joined_upto(
        rendered_each(paragraph_items(line, 0).0, options),
        paragraph_items(line, 0).0.len(),
        Seq::empty(),
    ) == line
}

/// Whether every text of a sequence is a line that reads back as itself.
pub open spec fn all_settled_lines(lines: Seq<Seq<char>>, options: FormattingOptions) -> bool {
    forall|i: int| 0 <= i < lines.len() ==> is_settled_line(#[trigger] lines[i], options)
}

/// A run of `*` in a line ends where it ends when the line stands between
/// other text, if what follows the line is empty or begins with a line feed.
pub proof fn lemma_star_run_in_context(
    front: Seq<char>,
    line: Seq<char>,
    back: Seq<char>,
    pos: int,
)
    requires
        0 <= pos <= line.len(),
        ends_line_there(back),
    ensures
        star_run_end(front + line + back, front.len() + pos) == front.len() + star_run_end(
            line,
            pos,
        ),
    decreases line.len() - pos,
{
    let whole = front + line + back;
    if pos < line.len() {
        assert(whole[front.len() + pos] == line[pos]);
        if line[pos] == '*' {
            lemma_star_run_in_context(front, line, back, pos + 1);
        }
    } else if back.len() > 0 {
        assert(whole[front.len() + pos] == back[0]);
    }
}

/// The same for a run of plain text.
pub proof fn lemma_text_run_in_context(
    front: Seq<char>,
    line: Seq<char>,
    back: Seq<char>,
    pos: int,
)
    requires
        0 <= pos <= line.len(),
        ends_line_there(back),
    ensures
        text_run_end(front + line + back, front.len() + pos) == front.len() + text_run_end(
            line,
            pos,
        ),
    decreases line.len() - pos,
{
    let whole = front + line + back;
    if pos < line.len() {
        assert(whole[front.len() + pos] == line[pos]);
        if !ends_text(line[pos]) {
            lemma_text_run_in_context(front, line, back, pos + 1);
        }
    } else if back.len() > 0 {
        assert(whole[front.len() + pos] == back[0]);
    }
}

/// A closing marker stands in a line where it stands when the line stands
/// between other text.
pub proof fn lemma_closes_in_context(
    front: Seq<char>,
    line: Seq<char>,
    back: Seq<char>,
    pos: int,
    marker: char,
    double: bool,
)
    requires
        0 <= pos <= line.len(),
        ends_line_there(back),
        is_emphasis_marker(marker),
    ensures
        closes_emphasis(front + line + back, front.len() + pos, marker, double) == closes_emphasis(
            line,
            pos,
            marker,
            double,
        ),
{
    let whole = front + line + back;
    if pos < line.len() {
        assert(whole[front.len() + pos] == line[pos]);
        if pos + 1 < line.len() {
            assert(whole[front.len() + pos + 1] == line[pos + 1]);
        } else if back.len() > 0 {
            assert(whole[front.len() + pos + 1] == back[0]);
        }
    } else if back.len() > 0 {
        assert(whole[front.len() + pos] == back[0]);
    }
}

/// A closed inline node of a line is written the same, and ends at the same
/// place of the line, when the line stands between other text.
pub proof fn lemma_inline_in_context(
    front: Seq<char>,
    line: Seq<char>,
    back: Seq<char>,
    pos: int,
    options: FormattingOptions,
)
    requires
        0 <= pos < line.len(),
        ends_line_there(back),
        no_line_feed(line),
        inline_closed(line, pos),
    ensures
        inline_at(front + line + back, front.len() + pos).1 == front.len() + inline_at(line, pos).1,
        rendered(inline_at(front + line + back, front.len() + pos).0, options) == rendered(
            inline_at(line, pos).0,
            options,
        ),
    decreases line.len() - pos, 2nat,
{
    let whole = front + line + back;
    let here = front.len() + pos;
    assert(whole[here] == line[pos]);
    if pos + 1 < line.len() {
        assert(whole[here + 1] == line[pos + 1]);
    } else if back.len() > 0 {
        assert(whole[here + 1] == back[0]);
    }
    if is_emphasis_marker(line[pos]) {
        let double = char_at(line, pos + 1) == line[pos];
        assert(double == (char_at(whole, here + 1) == whole[here]));
        lemma_emphasis_in_context(front, line, back, pos, double, options);
    } else {
        lemma_text_run_in_context(front, line, back, pos);
        lemma_text_run_end_bounds(line, pos);
        let end = text_run_end(line, pos);
        assert(whole.subrange(here, front.len() + end) =~= line.subrange(pos, end));
    }
}

/// The same for a closed bold or italic node.
pub proof fn lemma_emphasis_in_context(
    front: Seq<char>,
    line: Seq<char>,
    back: Seq<char>,
    pos: int,
    double: bool,
    options: FormattingOptions,
)
    requires
        0 <= pos < line.len(),
        is_emphasis_marker(line[pos]),
        double == (char_at(line, pos + 1) == line[pos]),
        ends_line_there(back),
        no_line_feed(line),
        emphasis_closed(line, pos, double),
    ensures
        emphasis_at(front + line + back, front.len() + pos, double).1 == front.len() + emphasis_at(
            line,
            pos,
            double,
        ).1,
        rendered(emphasis_at(front + line + back, front.len() + pos, double).0, options)
            == rendered(emphasis_at(line, pos, double).0, options),
    decreases line.len() - pos, 1nat,
{
    let whole = front + line + back;
    let here = front.len() + pos;
    let marker = line[pos];
    assert(whole[here] == marker);
    let width: int = if double {
        2
    } else {
        1
    };
    let opened = pos + width;
    assert(opened <= line.len());
    lemma_items_in_context(front, line, back, opened, marker, double, options);
    let (inner, stop) = emphasis_items(line, opened, marker, double);
    let (inner_there, stop_there) = emphasis_items(whole, front.len() + opened, marker, double);
    lemma_emphasis_items(line, opened, marker, double);
    lemma_closes_in_context(front, line, back, stop, marker, double);
    assert(rendered_each(inner_there, options).len() == inner_there.len());
    assert(rendered_each(inner, options).len() == inner.len());
    lemma_rendered_joined_each(inner, inner.len(), Seq::empty(), options);
    lemma_rendered_joined_each(inner_there, inner_there.len(), Seq::empty(), options);
}

/// The closed nodes inside a bold or italic node of a line are written the
/// same, and end at the same place of the line, when the line stands
/// between other text.
pub proof fn lemma_items_in_context(
    front: Seq<char>,
    line: Seq<char>,
    back: Seq<char>,
    pos: int,
    marker: char,
    double: bool,
    options: FormattingOptions,
)
    requires
        0 <= pos <= line.len(),
        is_emphasis_marker(marker),
        ends_line_there(back),
        no_line_feed(line),
        items_closed(line, pos, marker, double),
        closes_emphasis(line, emphasis_items(line, pos, marker, double).1, marker, double),
    ensures
        emphasis_items(front + line + back, front.len() + pos, marker, double).1 == front.len()
            + emphasis_items(line, pos, marker, double).1,
        rendered_each(
            emphasis_items(front + line + back, front.len() + pos, marker, double).0,
            options,
        ) == rendered_each(emphasis_items(line, pos, marker, double).0, options),
    decreases line.len() - pos, 3nat,
{
    let whole = front + line + back;
    let here = front.len() + pos;
    lemma_closes_in_context(front, line, back, pos, marker, double);
    if pos < line.len() && !closes_emphasis(line, pos, marker, double) {
        lemma_inline_at(line, pos);
        lemma_inline_at(whole, here);
        lemma_inline_in_context(front, line, back, pos, options);
        let (first, next) = inline_at(line, pos);
        let (first_there, next_there) = inline_at(whole, here);
        lemma_items_in_context(front, line, back, next, marker, double, options);
        let (rest, stop) = emphasis_items(line, next, marker, double);
        let (rest_there, stop_there) = emphasis_items(whole, next_there, marker, double);
        assert(emphasis_items(line, pos, marker, double).0 == seq![first] + rest);
        assert(emphasis_items(whole, here, marker, double).0 == seq![first_there] + rest_there);
        assert(rendered_each(seq![first_there] + rest_there, options) =~= seq![
            rendered(first_there, options),
        ] + rendered_each(rest_there, options));
        assert(rendered_each(seq![first] + rest, options) =~= seq![rendered(first, options)]
            + rendered_each(rest, options));
    } else {
        assert(rendered_each(emphasis_items(whole, here, marker, double).0, options)
            =~= rendered_each(emphasis_items(line, pos, marker, double).0, options));
    }
}

/// The closed nodes of a line are written the same when the line stands
/// between other text, and end where the line ends.
pub proof fn lemma_line_in_context(
    front: Seq<char>,
    line: Seq<char>,
    back: Seq<char>,
    pos: int,
    options: FormattingOptions,
)
    requires
        0 <= pos <= line.len(),
        ends_line_there(back),
        no_line_feed(line),
        line_closed(line, pos),
    ensures
        paragraph_items(line, pos).1 == line.len(),
        paragraph_items(front + line + back, front.len() + pos).1 == front.len() + line.len(),
        rendered_each(paragraph_items(front + line + back, front.len() + pos).0, options)
            == rendered_each(paragraph_items(line, pos).0, options),
    decreases line.len() - pos,
{
    let whole = front + line + back;
    let here = front.len() + pos;
    if pos < line.len() {
        assert(whole[here] == line[pos]);
        lemma_inline_at(line, pos);
        lemma_inline_at(whole, here);
        lemma_inline_in_context(front, line, back, pos, options);
        let (first, next) = inline_at(line, pos);
        let (first_there, next_there) = inline_at(whole, here);
        lemma_line_in_context(front, line, back, next, options);
        let rest = paragraph_items(line, next).0;
        let rest_there = paragraph_items(whole, next_there).0;
        assert(paragraph_items(line, pos).0 == seq![first] + rest);
        assert(paragraph_items(whole, here).0 == seq![first_there] + rest_there);
        assert(rendered_each(seq![first_there] + rest_there, options) =~= seq![
            rendered(first_there, options),
        ] + rendered_each(rest_there, options));
        assert(rendered_each(seq![first] + rest, options) =~= seq![rendered(first, options)]
            + rendered_each(rest, options));
    } else {
        if back.len() > 0 {
            assert(whole[here] == back[0]);
        }
        assert(rendered_each(paragraph_items(whole, here).0, options) =~= rendered_each(
            paragraph_items(line, pos).0,
            options,
        ));
    }
}

/// A line that reads back as itself is read as a paragraph that is written
/// as the line, wherever it stands between other text, if what follows it
/// is empty or begins with a line feed.
pub proof fn lemma_settled_line_in_context(
    front: Seq<char>,
    line: Seq<char>,
    back: Seq<char>,
    options: FormattingOptions,
)
    requires
        is_settled_line(line, options),
        ends_line_there(back),
    ensures
        (front + line + back)[front.len() as int] != '\n',
        !marks_heading(front + line + back, front.len() as int),
        paragraph_at(front + line + back, front.len() as int).1 == front.len() + line.len(),
        rendered(paragraph_at(front + line + back, front.len() as int).0, options) == line,
{
    let whole = front + line + back;
    let here = front.len() as int;
    assert(whole[here] == line[0]);
    lemma_star_run_in_context(front, line, back, 0);
    lemma_star_run_end_bounds(line, 0);
    let run = star_run_end(line, 0);
    if run < line.len() {
        assert(whole[here + run] == line[run]);
    } else if back.len() > 0 {
        assert(whole[here + run] == back[0]);
    }
    lemma_line_in_context(front, line, back, 0, options);
    let items = paragraph_items(line, 0).0;
    let items_there = paragraph_items(whole, here).0;
    assert(rendered_each(items, options).len() == items.len());
    assert(rendered_each(items_there, options).len() == items_there.len());
    lemma_rendered_joined_each(items_there, items_there.len(), Seq::empty(), options);
}

/// A line of plain text reads back as itself.
pub proof fn lemma_plain_line_is_settled(line: Seq<char>, options: FormattingOptions)
    requires
        is_plain_line(line),
    ensures
        is_settled_line(line, options),
{
    assert(!ends_text(line[0]));
    assert(star_run_end(line, 0) == 0);
    assert(Seq::<char>::empty() + line =~= line);
    lemma_plain_line_run(Seq::empty(), line, 0);
    let (first, next) = inline_at(line, 0);
    assert(next == line.len());
    assert(line.subrange(0, line.len() as int) =~= line);
    assert(rendered(first, options) == line);
    assert(paragraph_items(line, next).0 =~= Seq::<Cst>::empty());
    assert(paragraph_items(line, 0).0 =~= seq![first]);
    assert(rendered_each(seq![first], options) =~= seq![line]);
    assert(line_closed(line, next));
    assert(inline_closed(line, 0));
    assert forall|i: int| 0 <= i < line.len() implies #[trigger] line[i] != '\n' by {
        assert(!ends_text(line[i]));
    }
}

/// A heading whose body is plain text is written, with its markers in
/// front of it, as a line that reads back as itself.
pub proof fn lemma_text_heading_is_settled(node: Cst, options: FormattingOptions)
    requires
        options.heading_style == HeadingStyle::Atx,
        node matches Cst::Heading { content, .. } && content.len() == 1 && (
        content[0] matches Cst::Text { content: body, .. } && forall|i: int|
            0 <= i < body.len() ==> !ends_text(#[trigger] body[i])),
    ensures
        is_settled_line(rendered(node, options), options),
{
    let line = rendered(node, options);
    let level = node->Heading_level;
    let body = node->Heading_content[0]->Text_content;
    let content = node->Heading_content;
    let marks = repeated('#', level as nat);
    assert(rendered(content[0], options) == body);
    assert(rendered_joined(content, 1, seq![' '], options) == body);
    assert(line =~= marks + seq![' '] + body);
    assert forall|i: int| 0 <= i < line.len() implies !ends_text(#[trigger] line[i]) by {
        if i < marks.len() {
            assert(line[i] == marks[i]);
        } else if i == marks.len() {
            assert(line[i] == ' ');
        } else {
            assert(line[i] == body[i - marks.len() - 1]);
        }
    }
    lemma_plain_line_is_settled(line, options);
}

/// Whether a text holds no character that marks bold and italic text but
/// `marker`.
pub open spec fn marked_by(text: Seq<char>, marker: char) -> bool {
    forall|i: int| 0 <= i < text.len() && is_emphasis_marker(#[trigger] text[i]) ==> text[i] == marker
}

/// The texts of `parts`, one behind another, when the first of them is set
/// apart.
pub proof fn lemma_joined_cons(first: Seq<char>, rest: Seq<Seq<char>>)
    ensures
        joined_upto(seq![first] + rest, (rest.len() + 1) as nat, Seq::empty()) == first
            + joined_upto(rest, rest.len(), Seq::empty()),
    decreases rest.len(),
{
    let all = seq![first] + rest;
    if rest.len() == 0 {
        assert(first + joined_upto(rest, 0, Seq::empty()) =~= first);
    } else {
        let shorter = rest.drop_last();
        lemma_joined_cons(first, shorter);
        lemma_joined_upto_prefix(all, seq![first] + shorter, rest.len(), Seq::empty());
        lemma_joined_upto_prefix(rest, shorter, shorter.len(), Seq::empty());
        assert(all[rest.len() as int] == rest.last());
        if rest.len() == 1 {
            assert(joined_upto(rest, 1, Seq::empty()) == rest[0]);
            assert(joined_upto(all, 2, Seq::empty()) =~= first + rest[0]);
        } else {
            assert(joined_upto(all, (rest.len() + 1) as nat, Seq::empty()) =~= first
                + joined_upto(rest, rest.len(), Seq::empty()));
        }
    }
}

/// Only the parts that are joined matter.
pub proof fn lemma_joined_upto_prefix(
    a: Seq<Seq<char>>,
    b: Seq<Seq<char>>,
    count: nat,
    separator: Seq<char>,
)
    requires
        count <= a.len(),
        count <= b.len(),
        forall|i: int| 0 <= i < count ==> a[i] == b[i],
    ensures
        joined_upto(a, count, separator) == joined_upto(b, count, separator),
    decreases count,
{
    if count > 1 {
        lemma_joined_upto_prefix(a, b, (count - 1) as nat, separator);
    }
}

/// A closed inline node that holds no marker but the style's own is written
/// as it stands in the text.
pub proof fn lemma_closed_inline_is_kept(text: Seq<char>, pos: int, options: FormattingOptions)
    requires
        0 <= pos < text.len(),
        marked_by(text, emphasis_char(options)),
        inline_closed(text, pos),
    ensures
        pos < inline_at(text, pos).1 <= text.len(),
        rendered(inline_at(text, pos).0, options) == text.subrange(pos, inline_at(text, pos).1),
    decreases text.len() - pos, 2nat,
{
    lemma_inline_at(text, pos);
    if is_emphasis_marker(text[pos]) {
        let double = char_at(text, pos + 1) == text[pos];
        let marker = text[pos];
        assert(marker == emphasis_char(options));
        let width: int = if double {
            2
        } else {
            1
        };
        let opened = pos + width;
        lemma_closed_items_are_kept(text, opened, marker, double, options);
        lemma_emphasis_items(text, opened, marker, double);
        let (inner, stop) = emphasis_items(text, opened, marker, double);
        lemma_rendered_joined_each(inner, inner.len(), Seq::empty(), options);
        assert(rendered_each(inner, options).len() == inner.len());
        let end = stop + width;
        let marks = repeated(marker, width as nat);
        assert(text.subrange(pos, opened) =~= marks);
        assert(text.subrange(stop, end) =~= marks);
        assert(text.subrange(pos, end) =~= marks + text.subrange(opened, stop) + marks);
    } else {
        lemma_text_run_end_bounds(text, pos);
    }
}

/// The closed nodes inside bold or italic text that hold no marker but the
/// style's own are written as they stand in the text.
pub proof fn lemma_closed_items_are_kept(
    text: Seq<char>,
    pos: int,
    marker: char,
    double: bool,
    options: FormattingOptions,
)
    requires
        0 <= pos <= text.len(),
        marked_by(text, emphasis_char(options)),
        items_closed(text, pos, marker, double),
    ensures
        joined_upto(
            rendered_each(emphasis_items(text, pos, marker, double).0, options),
            emphasis_items(text, pos, marker, double).0.len(),
            Seq::empty(),
        ) == text.subrange(pos, emphasis_items(text, pos, marker, double).1),
    decreases text.len() - pos, 3nat,
{
    if pos < text.len() && !closes_emphasis(text, pos, marker, double) {
        lemma_closed_inline_is_kept(text, pos, options);
        let (first, next) = inline_at(text, pos);
        lemma_closed_items_are_kept(text, next, marker, double, options);
        lemma_emphasis_items(text, next, marker, double);
        let (rest, stop) = emphasis_items(text, next, marker, double);
        assert(emphasis_items(text, pos, marker, double).0 == seq![first] + rest);
        assert(rendered_each(seq![first] + rest, options) =~= seq![rendered(first, options)]
            + rendered_each(rest, options));
        assert(rendered_each(rest, options).len() == rest.len());
        lemma_joined_cons(rendered(first, options), rendered_each(rest, options));
        assert(text.subrange(pos, stop) =~= text.subrange(pos, next) + text.subrange(next, stop));
    } else {
        assert(text.subrange(pos, pos) =~= Seq::<char>::empty());
    }
}

/// The closed nodes of a line that hold no marker but the style's own are
/// written as they stand in the text.
pub proof fn lemma_closed_line_is_kept(text: Seq<char>, pos: int, options: FormattingOptions)
    requires
        0 <= pos <= text.len(),
        marked_by(text, emphasis_char(options)),
        line_closed(text, pos),
    ensures
        joined_upto(
            rendered_each(paragraph_items(text, pos).0, options),
            paragraph_items(text, pos).0.len(),
            Seq::empty(),
        ) == text.subrange(pos, paragraph_items(text, pos).1),
    decreases text.len() - pos,
{
    if pos < text.len() && text[pos] != '\n' {
        lemma_closed_inline_is_kept(text, pos, options);
        let (first, next) = inline_at(text, pos);
        lemma_closed_line_is_kept(text, next, options);
        lemma_paragraph_items(text, next);
        let (rest, stop) = paragraph_items(text, next);
        assert(paragraph_items(text, pos).0 == seq![first] + rest);
        assert(rendered_each(seq![first] + rest, options) =~= seq![rendered(first, options)]
            + rendered_each(rest, options));
        assert(rendered_each(rest, options).len() == rest.len());
        lemma_joined_cons(rendered(first, options), rendered_each(rest, options));
        assert(text.subrange(pos, stop) =~= text.subrange(pos, next) + text.subrange(next, stop));
    } else {
        assert(text.subrange(pos, pos) =~= Seq::<char>::empty());
    }
}

/// A line reads back as itself if it is not empty, holds no line feed and no
/// marker but the style's own, does not begin as a heading does, and the
/// bold and italic text in it is closed.
pub proof fn lemma_closed_line_is_settled(line: Seq<char>, options: FormattingOptions)
    requires
        line.len() > 0,
        no_line_feed(line),
        marked_by(line, emphasis_char(options)),
        !marks_heading(line, 0),
        line_closed(line, 0),
    ensures
        is_settled_line(line, options),
{
    lemma_closed_line_is_kept(line, 0, options);
    lemma_line_in_context(Seq::empty(), line, Seq::empty(), 0, options);
    assert(line.subrange(0, line.len() as int) =~= line);
}

/// The texts of `parts` from index `from` on, with `separator` between each
/// two.
pub open spec fn joined_from(parts: Seq<Seq<char>>, from: int, separator: Seq<char>) -> Seq<char>
    decreases parts.len() - from,
{
    if from < 0 || from >= parts.len() {
        Seq::empty()
    } else if from == parts.len() - 1 {
        parts[from]
    } else {
        parts[from] + separator + joined_from(parts, from + 1, separator)
    }
}

/// Joining from the front and joining from an index on fit together.
pub proof fn lemma_join_forms(parts: Seq<Seq<char>>, count: nat, separator: Seq<char>)
    requires
        1 <= count <= parts.len(),
    ensures
        joined_upto(parts, parts.len(), separator) == if count == parts.len() {
            joined_upto(parts, count, separator)
        } else {
            joined_upto(parts, count, separator) + separator + joined_from(
                parts,
                count as int,
                separator,
            )
        },
    decreases parts.len() - count,
{
    if count < parts.len() {
        lemma_join_forms(parts, count + 1, separator);
        let front = joined_upto(parts, count, separator);
        assert(joined_upto(parts, count + 1, separator) == front + separator + parts[count as int]);
        if count + 1 < parts.len() {
            assert(front + separator + parts[count as int] + separator + joined_from(
                parts,
                count as int + 1,
                separator,
            ) =~= front + separator + (parts[count as int] + separator + joined_from(
                parts,
                count as int + 1,
                separator,
            )));
        }
    }
}

/// Behind line feeds the blocks of a text are those from the end of the
/// line feeds on.
pub proof fn lemma_blocks_behind_feeds(text: Seq<char>, pos: int, feeds: int)
    requires
        0 <= pos,
        0 <= feeds,
        pos + feeds <= text.len(),
        forall|i: int| pos <= i < pos + feeds ==> #[trigger] text[i] == '\n',
    ensures
        blocks_from(text, pos) == blocks_from(text, pos + feeds),
    decreases feeds,
{
    if feeds > 0 {
        assert(text[pos] == '\n');
        lemma_blocks_behind_feeds(text, pos + 1, feeds - 1);
    }
}

/// Lines that read back as themselves, joined by line feeds, are read as
/// blocks that are written as those lines, whatever stands in front of
/// them.
pub proof fn lemma_blocks_of_settled_lines(
    front: Seq<char>,
    lines: Seq<Seq<char>>,
    from: int,
    feeds: Seq<char>,
    options: FormattingOptions,
)
    requires
        all_settled_lines(lines, options),
        is_line_feeds(feeds),
        0 <= from <= lines.len(),
    ensures
        rendered_each(
            blocks_from(front + joined_from(lines, from, feeds), front.len() as int),
            options,
        ) == lines.skip(from),
    decreases lines.len() - from,
{
    let tail = joined_from(lines, from, feeds);
    let whole = front + tail;
    let here = front.len() as int;
    if from == lines.len() {
        assert(whole =~= front);
        assert(rendered_each(blocks_from(whole, here), options) =~= lines.skip(from));
    } else {
        let line = lines[from];
        assert(is_settled_line(line, options));
        let back = if from == lines.len() - 1 {
            Seq::<char>::empty()
        } else {
            feeds + joined_from(lines, from + 1, feeds)
        };
        assert(whole =~= front + line + back);
        if back.len() > 0 {
            assert(back[0] == feeds[0]);
        }
        lemma_settled_line_in_context(front, line, back, options);
        let (block, next) = paragraph_at(whole, here);
        assert(next == here + line.len());
        let rest = blocks_from(whole, next);
        assert(blocks_from(whole, here) == seq![block] + rest);
        if from == lines.len() - 1 {
            assert(rest =~= Seq::<Cst>::empty());
            assert(rendered_each(seq![block] + rest, options) =~= seq![line]);
            assert(lines.skip(from) =~= seq![line]);
        } else {
            assert forall|i: int| next <= i < next + feeds.len() implies #[trigger] whole[i]
                == '\n' by {
                assert(whole[i] == feeds[i - next]);
            }
            lemma_blocks_behind_feeds(whole, next, feeds.len() as int);
            let further = front + line + feeds;
            assert(whole =~= further + joined_from(lines, from + 1, feeds));
            lemma_blocks_of_settled_lines(further, lines, from + 1, feeds, options);
            assert(rendered_each(seq![block] + rest, options) =~= seq![line] + rendered_each(
                rest,
                options,
            ));
            assert(lines.skip(from) =~= seq![line] + lines.skip(from + 1));
        }
    }
}

/// Lines that read back as themselves, joined by what parts the blocks of a
/// document, make a text that the writer leaves as it is: parsed and
/// written, it is the same text again.
pub proof fn law_settled_lines_are_kept(lines: Seq<Seq<char>>, options: FormattingOptions)
    requires
        all_settled_lines(lines, options),
    ensures
        rendered(
            document_of(joined_upto(lines, lines.len(), block_separator(options))),
            options,
        ) == joined_upto(lines, lines.len(), block_separator(options)),
{
    let feeds = block_separator(options);
    assert(is_line_feeds(feeds));
    let text = joined_upto(lines, lines.len(), feeds);
    if lines.len() > 0 {
        lemma_join_forms(lines, 1, feeds);
        assert(joined_upto(lines, 1, feeds) == lines[0]);
    }
    assert(text =~= joined_from(lines, 0, feeds));
    lemma_blocks_of_settled_lines(Seq::empty(), lines, 0, feeds, options);
    assert(Seq::<char>::empty() + joined_from(lines, 0, feeds) =~= text);
    assert(lines.skip(0) =~= lines);
    let blocks = blocks_from(text, 0);
    assert(rendered_each(blocks, options) == lines);
    assert(blocks.len() == lines.len());
    lemma_rendered_joined_each(blocks, blocks.len(), feeds, options);
}

/// Where every block of a parsed text is written as a line that reads back
/// as itself, what the writer makes of the text it makes again of its own
/// output.
pub proof fn law_settled_text_is_written_the_same_again(
    text: Seq<char>,
    options: FormattingOptions,
)
    requires
        all_settled_lines(rendered_each(blocks_from(text, 0), options), options),
    ensures
        rendered(document_of(rendered(document_of(text), options)), options) == rendered(
            document_of(text),
            options,
        ),
{
    let feeds = block_separator(options);
    let blocks = blocks_from(text, 0);
    let lines = rendered_each(blocks, options);
    assert(lines.len() == blocks.len());
    lemma_rendered_joined_each(blocks, blocks.len(), feeds, options);
    law_settled_lines_are_kept(lines, options);
}

/// Whether a node is a block of plain text: a paragraph of one text node
/// that is not empty, or a heading whose body is one text node; the text is
/// without markers and line feeds.
pub open spec fn is_text_block(node: Cst) -> bool {
    match node {
        Cst::Paragraph { content, .. } => content.len() == 1 && (content[0] matches Cst::Text {
            content: body,
            ..
        } && is_plain_line(body)),
        Cst::Heading { content, .. } => content.len() == 1 && (content[0] matches Cst::Text {
            content: body,
            ..
        } && forall|i: int| 0 <= i < body.len() ==> !ends_text(#[trigger] body[i])),
        _ => false,
    }
}

/// Where every block of a parsed text is a paragraph of plain text or a
/// heading with a body of plain text, and headings are written with their
/// markers in front, what the writer makes of the text it makes again of
/// its own output.
pub proof fn law_text_blocks_are_written_the_same_again(
    text: Seq<char>,
    options: FormattingOptions,
)
    requires
        options.heading_style == HeadingStyle::Atx,
        forall|i: int|
            0 <= i < blocks_from(text, 0).len() ==> is_text_block(#[trigger] blocks_from(text, 0)[i]),
    ensures
        rendered(document_of(rendered(document_of(text), options)), options) == rendered(
            document_of(text),
            options,
        ),
{
    let blocks = blocks_from(text, 0);
    let lines = rendered_each(blocks, options);
    assert forall|i: int| 0 <= i < lines.len() implies is_settled_line(
        #[trigger] lines[i],
        options,
    ) by {
        let block = blocks[i];
        assert(is_text_block(block));
        match block {
            Cst::Paragraph { content, .. } => {
                assert(rendered(content[0], options) == content[0]->Text_content);
                assert(rendered_joined(content, 1, Seq::empty(), options)
                    == content[0]->Text_content);
                lemma_plain_line_is_settled(lines[i], options);
            },
            _ => {
                lemma_text_heading_is_settled(block, options);
            },
        }
    }
    law_settled_text_is_written_the_same_again(text, options);
}

} // verus!
