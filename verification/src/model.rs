//! The transform as mathematics: what a sequence of lines is cut into, and
//! what is written for it.
//!
//! Two descriptions stand side by side. `chunks_of` follows the stream one
//! line at a time and keeps the chunks it has closed and the one that is
//! still open. `commented` and `output` say of each single line, without any
//! walk through the stream, whether it is commented out and what is written
//! for it. The module `laws` proves that the two agree.

use vstd::prelude::*;
use crate::chunk::{rendered_line, ChunkView};
use crate::text::{occurs_in, uppercase};

verus! {

/// A line of input: its characters, and the case-folded form in which the
/// trigger is looked for.
pub struct Line {
    pub text: Seq<char>,
    pub folded: Seq<char>,
}

impl Line {
    /// A line with the folded form that `uppercase` gives it.
    pub open spec fn of(text: Seq<char>) -> Line {
        Line { text, folded: uppercase(text) }
    }
}

/// The two markers that are looked for in the input.
pub struct Markers {
    /// A line that holds this begins a new chunk, unless it is the first.
    pub split_by: Seq<char>,
    /// A line whose folded form holds this has its chunk commented out.
    /// It is itself in folded form.
    pub trigger: Seq<char>,
}

impl Markers {
    /// The markers for a split marker and a trigger word as the user wrote
    /// them: the trigger is folded as the lines are.
    pub open spec fn of(split_by: Seq<char>, comment_if: Seq<char>) -> Markers {
        Markers { split_by, trigger: uppercase(comment_if) }
    }
}

/// Each text as a line with the folded form that `uppercase` gives it.
pub open spec fn lines_of(texts: Seq<Seq<char>>) -> Seq<Line> {
    texts.map_values(|text: Seq<char>| Line::of(text))
}

/// The characters of each line.
pub open spec fn line_texts(lines: Seq<Line>) -> Seq<Seq<char>> {
    lines.map_values(|line: Line| line.text)
}

/// The line holds the split marker.
pub open spec fn marks_split(line: Line, m: Markers) -> bool {
    occurs_in(m.split_by, line.text)
}

/// The line holds the trigger, case apart.
pub open spec fn triggers(line: Line, m: Markers) -> bool {
    occurs_in(m.trigger, line.folded)
}

/// Line `i` begins a new chunk: it holds the split marker and is not the
/// first line.
pub open spec fn opens_chunk(lines: Seq<Line>, m: Markers, i: int) -> bool {
    0 < i < lines.len() && marks_split(lines[i], m)
}

/// The chunks of a stream, in order; the last one is the chunk that is
/// still open when the stream ends. A stream without lines has one empty
/// chunk.
pub open spec fn chunks_of(lines: Seq<Line>, m: Markers) -> Seq<ChunkView>
    decreases lines.len(),
{
    if lines.len() == 0 {
        seq![ChunkView::empty()]
    } else {
        let before = chunks_of(lines.drop_last(), m);
        let line = lines.last();
        if opens_chunk(lines, m, lines.len() - 1) {
            before.push(ChunkView::empty().with_line(line.text, triggers(line, m)))
        } else {
            before.drop_last().push(before.last().with_line(line.text, triggers(line, m)))
        }
    }
}

/// What is written for each chunk of a sequence of chunks.
pub open spec fn chunk_texts(chunks: Seq<ChunkView>, comment_char: Seq<char>) -> Seq<Seq<char>> {
    chunks.map_values(|chunk: ChunkView| chunk.text(comment_char))
}

/// How many lines begin a new chunk: the lines that hold the split marker,
/// the first line left out.
pub open spec fn split_count(lines: Seq<Line>, m: Markers) -> nat {
    if lines.len() == 0 {
        0
    } else {
        lines.drop_first().filter(|line: Line| marks_split(line, m)).len()
    }
}

/// The index of the first line of the chunk that is open at the end of the
/// stream; 0 for a stream without lines.
pub open spec fn open_start(lines: Seq<Line>, m: Markers) -> int
    decreases lines.len(),
{
    if lines.len() == 0 {
        0
    } else if opens_chunk(lines, m, lines.len() - 1) {
        lines.len() - 1
    } else {
        open_start(lines.drop_last(), m)
    }
}

/// Lines `i` and `k` lie in one chunk: no line after the earlier of the two,
/// up to and including the later, begins a new chunk.
pub open spec fn same_chunk(lines: Seq<Line>, m: Markers, i: int, k: int) -> bool {
    forall|j: int| (i < j <= k || k < j <= i) ==> !#[trigger] opens_chunk(lines, m, j)
}

/// Line `i` is written behind the comment marker: some line of its chunk,
/// before it or after it or the line itself, holds the trigger.
pub open spec fn commented(lines: Seq<Line>, m: Markers, i: int) -> bool {
    exists|k: int|
        0 <= k < lines.len() && #[trigger] same_chunk(lines, m, i, k) && triggers(lines[k], m)
}

/// What is written for each line of the stream.
pub open spec fn output_lines(lines: Seq<Line>, m: Markers, comment_char: Seq<char>) -> Seq<
    Seq<char>,
> {
    Seq::new(
        lines.len(),
        |i: int| rendered_line(commented(lines, m, i), comment_char, lines[i].text),
    )
}

/// Everything that is written for the stream.
pub open spec fn output(lines: Seq<Line>, m: Markers, comment_char: Seq<char>) -> Seq<char> {
    output_lines(lines, m, comment_char).flatten()
}

} // verus!
