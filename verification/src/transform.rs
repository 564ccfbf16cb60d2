//! The transform on a whole sequence of lines at once.

use vstd::prelude::*;
use crate::chunk::texts_of;
use crate::chunker::Chunker;
use crate::laws::{lemma_chunk_count, lemma_chunks_write_output};
use crate::model::{chunk_texts, chunks_of, lines_of, output, split_count, Line, Markers};

verus! {

/// Cuts `lines` into chunks at each line after the first that holds
/// `split_by`, and returns the text that is written for each chunk, in
/// order: the chunk's lines, each ended by a newline, and each behind
/// `comment_char` and a space if any line of the chunk holds `comment_if`,
/// case apart.
///
/// There is one text more than there are lines that begin a chunk, and the
/// texts joined are `output`: what is written, line by line, for the whole
/// input.
pub fn comment_chunks(lines: &[String], split_by: &str, comment_if: &str, comment_char: &str)
    -> (texts: Vec<String>)
    ensures
        texts_of(texts@) == chunk_texts(
            chunks_of(lines_of(texts_of(lines@)), Markers::of(split_by@, comment_if@)),
            comment_char@,
        ),
        texts.len() == 1 + split_count(
            lines_of(texts_of(lines@)),
            Markers::of(split_by@, comment_if@),
        ),
        texts_of(texts@).flatten() == output(
            lines_of(texts_of(lines@)),
            Markers::of(split_by@, comment_if@),
            comment_char@,
        ),
{
    let ghost m = Markers::of(split_by@, comment_if@);
    let ghost all = lines_of(texts_of(lines@));
    let mut chunker = Chunker::new(split_by, comment_if, comment_char);
    let mut texts: Vec<String> = Vec::new();
    let n: usize = lines.len();
    let mut i: usize = 0;
    assert(texts_of(texts@) =~= chunk_texts(chunks_of(all.take(0), m).drop_last(), comment_char@));
    assert(chunker.history() =~= all.take(0));
    while i < n
        invariant
            n == lines.len(),
            i <= n,
            all == lines_of(texts_of(lines@)),
            chunker.wf(),
            chunker.markers() == m,
            chunker.comment_char() == comment_char@,
            chunker.history() == all.take(i as int),
            texts_of(texts@) == chunk_texts(
                chunks_of(all.take(i as int), m).drop_last(),
                comment_char@,
            ),
        decreases n - i,
    {
        let ghost before = chunks_of(all.take(i as int), m);
        proof {
            assert(all.take(i + 1).drop_last() =~= all.take(i as int));
            assert(all.take(i + 1) =~= all.take(i as int).push(Line::of(lines[i as int]@)));
        }
        let ghost closed = texts_of(texts@);
        let flushed = chunker.process(lines[i].clone());
        match flushed {
            Some(text) => {
                texts.push(text);
                assert(chunks_of(all.take(i + 1), m).drop_last() =~= before);
                assert(before =~= before.drop_last().push(before.last()));
                assert(texts_of(texts@) =~= closed.push(text@));
                assert(closed.push(text@) =~= chunk_texts(before, comment_char@));
            },
            None => {
                assert(chunks_of(all.take(i + 1), m).drop_last() =~= before.drop_last());
            },
        }
        i += 1;
    }
    let ghost chunks = chunks_of(all, m);
    proof {
        assert(all.take(n as int) =~= all);
    }
    let ghost closed = texts_of(texts@);
    let last = chunker.finalize();
    let ghost last_text = last@;
    texts.push(last);
    proof {
        assert(chunks =~= chunks.drop_last().push(chunks.last()));
        assert(texts_of(texts@) =~= closed.push(last_text));
        assert(closed.push(last_text) =~= chunk_texts(chunks, comment_char@));
        lemma_chunk_count(all, m);
        lemma_chunks_write_output(all, m, comment_char@);
    }
    texts
}

} // verus!
