//! What holds of the transform on every input, proved from the definitions
//! in `model`.

use vstd::prelude::*;
use crate::chunk::{rendered_line, ChunkView};
use crate::model::{
    chunk_texts, chunks_of, commented, line_texts, marks_split, open_start, opens_chunk, output,
    output_lines, same_chunk, split_count, triggers, Line, Markers,
};

verus! {

/// The chunk that is open at the end of a stream holds the lines from
/// `open_start` on, and those only. It begins at the first line or at a
/// line that holds the split marker, no later line of it holds a split
/// marker that counts, and it is commented out exactly if one of its lines
/// holds the trigger. Once a line has been read it is never empty.
pub proof fn lemma_open_chunk(lines: Seq<Line>, m: Markers)
    ensures
        chunks_of(lines, m).len() >= 1,
        0 <= open_start(lines, m) <= lines.len(),
        lines.len() > 0 ==> open_start(lines, m) < lines.len(),
        open_start(lines, m) > 0 ==> opens_chunk(lines, m, open_start(lines, m)),
        forall|j: int| open_start(lines, m) < j < lines.len() ==> !opens_chunk(lines, m, j),
        chunks_of(lines, m).last().lines == line_texts(
            lines.subrange(open_start(lines, m), lines.len() as int),
        ),
        chunks_of(lines, m).last().comment_out <==> exists|k: int|
            open_start(lines, m) <= k < lines.len() && triggers(#[trigger] lines[k], m),
    decreases lines.len(),
{
    let n = lines.len() as int;
    let s = open_start(lines, m);
    let last = chunks_of(lines, m).last();
    if n == 0 {
        assert(last.lines =~= line_texts(lines.subrange(s, n)));
    } else {
        let prev = lines.drop_last();
        let sp = open_start(prev, m);
        let before = chunks_of(prev, m);
        lemma_open_chunk(prev, m);
        assert forall|j: int| j < n - 1 implies opens_chunk(prev, m, j) == opens_chunk(
            lines,
            m,
            j,
        ) by {}
        if opens_chunk(lines, m, n - 1) {
            assert(last.lines =~= line_texts(lines.subrange(s, n)));
            assert(last.comment_out == triggers(lines[n - 1], m));
        } else {
            assert(s == sp);
            assert(last == before.last().with_line(lines[n - 1].text, triggers(lines[n - 1], m)));
            assert(lines.subrange(s, n) =~= prev.subrange(sp, n - 1).push(lines[n - 1]));
            assert(last.lines =~= line_texts(lines.subrange(s, n)));
            if before.last().comment_out {
                let k = choose|k: int| sp <= k < n - 1 && triggers(#[trigger] prev[k], m);
                assert(triggers(lines[k], m));
            }
            if exists|k: int| s <= k < n && triggers(#[trigger] lines[k], m) {
                let k = choose|k: int| s <= k < n && triggers(#[trigger] lines[k], m);
                if k < n - 1 {
                    assert(triggers(prev[k], m));
                }
            }
        }
    }
}

/// There is one chunk more than there are lines that begin a chunk: the
/// first line never begins one, whatever it holds.
pub proof fn lemma_chunk_count(lines: Seq<Line>, m: Markers)
    ensures
        chunks_of(lines, m).len() == 1 + split_count(lines, m),
    decreases lines.len(),
{
    let n = lines.len() as int;
    let splits = |line: Line| marks_split(line, m);
    if n == 1 {
        assert(lines.drop_last() =~= Seq::<Line>::empty());
        lines.drop_first().lemma_filter_len(splits);
    } else if n > 1 {
        let prev = lines.drop_last();
        lemma_chunk_count(prev, m);
        assert(lines.drop_first() =~= prev.drop_first().push(lines[n - 1]));
        prev.drop_first().lemma_filter_len_push(splits, lines[n - 1]);
    }
}

/// Once a later line has begun a new chunk, nothing that follows changes
/// whether a line is commented out: line `i`, with a line `b` after it that
/// begins a chunk, is commented out in the whole stream exactly if it is in
/// any prefix of the stream that reaches up to `b`.
pub proof fn lemma_commented_is_sealed(lines: Seq<Line>, m: Markers, i: int, b: int, n: int)
    requires
        0 <= i < b <= n <= lines.len(),
        opens_chunk(lines, m, b),
    ensures
        commented(lines.take(n), m, i) == commented(lines, m, i),
{
    let head = lines.take(n);
    if commented(head, m, i) {
        let k = choose|k: int|
            0 <= k < head.len() && #[trigger] same_chunk(head, m, i, k) && triggers(head[k], m);
        assert forall|j: int| (i < j <= k || k < j <= i) implies !#[trigger] opens_chunk(
            lines,
            m,
            j,
        ) by {
            assert(!opens_chunk(head, m, j));
        }
        assert(same_chunk(lines, m, i, k));
        assert(triggers(lines[k], m));
    }
    if commented(lines, m, i) {
        let k = choose|k: int|
            0 <= k < lines.len() && #[trigger] same_chunk(lines, m, i, k) && triggers(
                lines[k],
                m,
            );
        assert(k < b) by {
            if k >= b {
                assert(opens_chunk(lines, m, b));
            }
        }
        assert forall|j: int| (i < j <= k || k < j <= i) implies !#[trigger] opens_chunk(
            head,
            m,
            j,
        ) by {
            assert(!opens_chunk(lines, m, j));
        }
        assert(same_chunk(head, m, i, k));
        assert(triggers(head[k], m));
    }
}

/// A line of the open chunk is commented out exactly if the open chunk is.
pub proof fn lemma_commented_in_open_chunk(lines: Seq<Line>, m: Markers, i: int)
    requires
        open_start(lines, m) <= i < lines.len(),
    ensures
        commented(lines, m, i) == chunks_of(lines, m).last().comment_out,
{
    let s = open_start(lines, m);
    let n = lines.len() as int;
    lemma_open_chunk(lines, m);
    if chunks_of(lines, m).last().comment_out {
        let k = choose|k: int| s <= k < n && triggers(#[trigger] lines[k], m);
        assert(same_chunk(lines, m, i, k));
    }
    if commented(lines, m, i) {
        let k = choose|k: int|
            0 <= k < n && #[trigger] same_chunk(lines, m, i, k) && triggers(lines[k], m);
        if k < s {
            assert(opens_chunk(lines, m, s));
        }
        assert(triggers(lines[k], m));
    }
}

/// The two descriptions of the transform agree. The texts of the chunks,
/// joined in order, are what is written line by line for the whole stream;
/// and the texts of the chunks that are closed are what is written for the
/// lines before the open chunk.
pub proof fn lemma_chunks_write_output(lines: Seq<Line>, m: Markers, comment_char: Seq<char>)
    ensures
        chunk_texts(chunks_of(lines, m), comment_char).flatten() == output(lines, m, comment_char),
        chunk_texts(chunks_of(lines, m).drop_last(), comment_char).flatten() == output_lines(
            lines,
            m,
            comment_char,
        ).take(open_start(lines, m)).flatten(),
    decreases lines.len(),
{
    let n = lines.len() as int;
    let s = open_start(lines, m);
    let chunks = chunks_of(lines, m);
    let written = output_lines(lines, m, comment_char);
    let closed = chunk_texts(chunks.drop_last(), comment_char);
    lemma_open_chunk(lines, m);
    if n == 0 {
        assert(closed =~= Seq::<Seq<char>>::empty());
        assert(written.take(s) =~= Seq::<Seq<char>>::empty());
    } else {
        let prev = lines.drop_last();
        let sp = open_start(prev, m);
        let before = chunks_of(prev, m);
        let written_before = output_lines(prev, m, comment_char);
        lemma_chunks_write_output(prev, m, comment_char);
        lemma_open_chunk(prev, m);
        assert(lines.take(n - 1) =~= prev);
        if opens_chunk(lines, m, n - 1) {
            assert(chunks.drop_last() =~= before);
            assert forall|i: int| 0 <= i < n - 1 implies written[i] == written_before[i] by {
                lemma_commented_is_sealed(lines, m, i, n - 1, n - 1);
            }
            assert(written.take(s) =~= written_before);
        } else {
            assert(chunks.drop_last() =~= before.drop_last());
            assert forall|i: int| 0 <= i < s implies written[i] == written_before[i] by {
                assert(opens_chunk(lines, m, sp));
                lemma_commented_is_sealed(lines, m, i, sp, n - 1);
            }
            assert(written.take(s) =~= written_before.take(sp));
        }
    }
    let open = chunks.last();
    assert(chunks =~= chunks.drop_last().push(open));
    assert(chunk_texts(chunks, comment_char) =~= closed.push(open.text(comment_char)));
    closed.lemma_flatten_push(open.text(comment_char));
    assert forall|i: int| 0 <= i < n - s implies open.rendered_lines(comment_char)[i]
        == written.skip(s)[i] by {
        lemma_commented_in_open_chunk(lines, m, s + i);
    }
    assert(open.rendered_lines(comment_char) =~= written.skip(s));
    assert(written =~= written.take(s) + written.skip(s));
    vstd::seq_lib::lemma_flatten_concat(written.take(s), written.skip(s));
}

/// A stream in which no line after the first holds the split marker is a
/// single chunk: all of its lines, commented out exactly if one of them
/// holds the trigger.
pub proof fn lemma_one_chunk(lines: Seq<Line>, m: Markers)
    requires
        forall|i: int| 0 < i < lines.len() ==> !marks_split(#[trigger] lines[i], m),
    ensures
        chunks_of(lines, m) == seq![
            ChunkView {
                comment_out: exists|i: int|
                    0 <= i < lines.len() && triggers(#[trigger] lines[i], m),
                lines: line_texts(lines),
            },
        ],
    decreases lines.len(),
{
    let whole = ChunkView {
        comment_out: exists|i: int| 0 <= i < lines.len() && triggers(#[trigger] lines[i], m),
        lines: line_texts(lines),
    };
    if lines.len() == 0 {
        assert(whole.lines =~= Seq::<Seq<char>>::empty());
        assert(chunks_of(lines, m) =~= seq![whole]);
    } else {
        let n = lines.len() as int;
        let prev = lines.drop_last();
        assert forall|i: int| 0 < i < prev.len() implies !marks_split(#[trigger] prev[i], m) by {
            assert(!marks_split(lines[i], m));
        }
        lemma_one_chunk(prev, m);
        let before = chunks_of(prev, m)[0];
        assert(!opens_chunk(lines, m, n - 1));
        let after = before.with_line(lines[n - 1].text, triggers(lines[n - 1], m));
        assert(after.lines =~= whole.lines);
        if before.comment_out {
            let i = choose|i: int| 0 <= i < prev.len() && triggers(#[trigger] prev[i], m);
            assert(triggers(lines[i], m));
        }
        if whole.comment_out {
            let i = choose|i: int| 0 <= i < lines.len() && triggers(#[trigger] lines[i], m);
            if i < n - 1 {
                assert(triggers(prev[i], m));
            }
        }
        assert(chunks_of(lines, m) =~= seq![whole]);
    }
}

/// A stream in which the split marker never occurs is a single chunk: all
/// of its lines, commented out exactly if one of them holds the trigger.
pub proof fn lemma_no_split_marker_one_chunk(lines: Seq<Line>, m: Markers)
    requires
        forall|i: int| 0 <= i < lines.len() ==> !marks_split(#[trigger] lines[i], m),
    ensures
        chunks_of(lines, m) == seq![
            ChunkView {
                comment_out: exists|i: int|
                    0 <= i < lines.len() && triggers(#[trigger] lines[i], m),
                lines: line_texts(lines),
            },
        ],
{
    lemma_one_chunk(lines, m);
}

/// The first line never begins a second chunk, whether or not it holds the
/// split marker: the first chunk begins with the first line, a stream of
/// one line is one chunk, and the first line is not counted among the lines
/// that begin a chunk.
pub proof fn lemma_first_line_never_splits(lines: Seq<Line>, m: Markers)
    requires
        lines.len() > 0,
    ensures
        !opens_chunk(lines, m, 0),
        chunks_of(lines, m)[0].lines.len() > 0,
        chunks_of(lines, m)[0].lines[0] == lines[0].text,
        chunks_of(lines.take(1), m).len() == 1,
        split_count(lines.take(1), m) == 0,
    decreases lines.len(),
{
    let n = lines.len() as int;
    lemma_one_chunk(lines.take(1), m);
    lemma_chunk_count(lines.take(1), m);
    if n == 1 {
        assert(lines.take(1) =~= lines);
        assert(line_texts(lines)[0] == lines[0].text);
    } else {
        let prev = lines.drop_last();
        lemma_first_line_never_splits(prev, m);
        lemma_open_chunk(prev, m);
    }
}

/// No chunk that is closed is empty, and once a line has been read the open
/// chunk is not empty either.
pub proof fn lemma_chunks_not_empty(lines: Seq<Line>, m: Markers, c: int)
    requires
        0 <= c < chunks_of(lines, m).len(),
        c < chunks_of(lines, m).len() - 1 || lines.len() > 0,
    ensures
        chunks_of(lines, m)[c].lines.len() > 0,
    decreases lines.len(),
{
    if lines.len() > 0 {
        let prev = lines.drop_last();
        lemma_open_chunk(prev, m);
        if c < chunks_of(lines, m).len() - 1 {
            lemma_chunks_not_empty(prev, m, c);
        }
    }
}

/// The chunks hold the lines of the stream, every one of them once and in
/// the order in which they came.
pub proof fn lemma_chunks_keep_lines(lines: Seq<Line>, m: Markers)
    ensures
        chunks_of(lines, m).map_values(|chunk: ChunkView| chunk.lines).flatten() == line_texts(
            lines,
        ),
    decreases lines.len(),
{
    let chunks = chunks_of(lines, m);
    let held = |chunk: ChunkView| chunk.lines;
    if lines.len() == 0 {
        assert(chunks.map_values(held) =~= seq![Seq::<Seq<char>>::empty()]);
        chunks.map_values(held).lemma_flatten_one_element();
        assert(line_texts(lines) =~= Seq::<Seq<char>>::empty());
    } else {
        let n = lines.len() as int;
        let prev = lines.drop_last();
        let before = chunks_of(prev, m);
        let line = lines[n - 1].text;
        lemma_chunks_keep_lines(prev, m);
        lemma_open_chunk(prev, m);
        assert(line_texts(lines) =~= line_texts(prev).push(line));
        assert(before =~= before.drop_last().push(before.last()));
        assert(before.map_values(held) =~= before.drop_last().map_values(held).push(
            before.last().lines,
        ));
        before.drop_last().map_values(held).lemma_flatten_push(before.last().lines);
        if opens_chunk(lines, m, n - 1) {
            assert(chunks.map_values(held) =~= before.map_values(held).push(seq![line]));
            before.map_values(held).lemma_flatten_push(seq![line]);
        } else {
            assert(chunks.map_values(held) =~= before.drop_last().map_values(held).push(
                before.last().lines.push(line),
            ));
            before.drop_last().map_values(held).lemma_flatten_push(before.last().lines.push(line));
        }
    }
}

/// Within a chunk the comment flag only ever rises: a line that does not
/// begin a new chunk leaves a commented chunk commented.
pub proof fn lemma_comment_flag_is_kept(lines: Seq<Line>, m: Markers, line: Line)
    requires
        !opens_chunk(lines.push(line), m, lines.len() as int),
        chunks_of(lines, m).last().comment_out,
    ensures
        chunks_of(lines.push(line), m).last().comment_out,
{
    assert(lines.push(line).drop_last() =~= lines);
}

/// Lying in one chunk is symmetric and transitive.
pub proof fn lemma_same_chunk_is_equivalence(lines: Seq<Line>, m: Markers, i: int, k: int, x: int)
    ensures
        same_chunk(lines, m, i, i),
        same_chunk(lines, m, i, k) ==> same_chunk(lines, m, k, i),
        same_chunk(lines, m, i, k) && same_chunk(lines, m, k, x) ==> same_chunk(lines, m, i, x),
{
}

/// The lines of one chunk share one fate. If lines `i` and `k` lie in one
/// chunk, either both are commented out or neither is; and if `k` holds the
/// trigger, `i` is written behind the comment marker, whether it came
/// before `k` or after it.
pub proof fn lemma_chunk_shares_comment(
    lines: Seq<Line>,
    m: Markers,
    comment_char: Seq<char>,
    i: int,
    k: int,
)
    requires
        0 <= i < lines.len(),
        0 <= k < lines.len(),
        same_chunk(lines, m, i, k),
    ensures
        commented(lines, m, i) == commented(lines, m, k),
        triggers(lines[k], m) ==> commented(lines, m, i),
        triggers(lines[k], m) ==> output_lines(lines, m, comment_char)[i] == comment_char
            + seq![' '] + lines[i].text + seq!['\n'],
{
    if commented(lines, m, i) {
        let x = choose|x: int|
            0 <= x < lines.len() && #[trigger] same_chunk(lines, m, i, x) && triggers(
                lines[x],
                m,
            );
        lemma_same_chunk_is_equivalence(lines, m, k, i, x);
        assert(same_chunk(lines, m, k, x));
    }
    if commented(lines, m, k) {
        let x = choose|x: int|
            0 <= x < lines.len() && #[trigger] same_chunk(lines, m, k, x) && triggers(
                lines[x],
                m,
            );
        lemma_same_chunk_is_equivalence(lines, m, i, k, x);
        assert(same_chunk(lines, m, i, x));
    }
}

/// Every line that is written ends in a newline, commented or not. If
/// neither the line nor the comment marker holds a newline, that newline is
/// the only one.
pub proof fn lemma_written_line_ends_in_newline(
    commented: bool,
    comment_char: Seq<char>,
    line: Seq<char>,
)
    ensures
        rendered_line(commented, comment_char, line).len() > 0,
        rendered_line(commented, comment_char, line).last() == '\n',
        !line.contains('\n') && !comment_char.contains('\n') ==> forall|i: int|
            0 <= i < rendered_line(commented, comment_char, line).len() - 1
                ==> rendered_line(commented, comment_char, line)[i] != '\n',
{
    let written = rendered_line(commented, comment_char, line);
    if !line.contains('\n') && !comment_char.contains('\n') {
        assert forall|i: int| 0 <= i < written.len() - 1 implies written[i] != '\n' by {
            if commented {
                if i < comment_char.len() {
                    assert(comment_char.contains(written[i]));
                } else if i > comment_char.len() {
                    assert(line.contains(line[i - comment_char.len() - 1]));
                }
            } else {
                assert(line.contains(line[i]));
            }
        }
    }
}

/// Every line of the output ends in a newline.
pub proof fn lemma_output_lines_end_in_newline(
    lines: Seq<Line>,
    m: Markers,
    comment_char: Seq<char>,
    i: int,
)
    requires
        0 <= i < lines.len(),
    ensures
        output_lines(lines, m, comment_char)[i].len() > 0,
        output_lines(lines, m, comment_char)[i].last() == '\n',
{
    lemma_written_line_ends_in_newline(commented(lines, m, i), comment_char, lines[i].text);
}

} // verus!
