//! The streaming transform: lines go in one at a time, and the text of a
//! chunk comes out when the chunk is closed.

use vstd::prelude::*;
use crate::chunk::{Chunk, ChunkView};
use crate::laws::lemma_open_chunk;
use crate::model::{chunks_of, opens_chunk, Line, Markers};
use crate::text::{holds, occurs_in};

verus! {

/// Cuts a stream of lines into chunks and gives back the text of each chunk
/// as soon as it is closed. Only the open chunk is kept.
pub struct Chunker {
    split_by: String,
    trigger: String,
    comment_char: String,
    chunk: Chunk,
    seen: Ghost<Seq<Line>>,
}

impl Chunker {
    /// The markers that this chunker looks for.
    pub closed spec fn markers(&self) -> Markers {
        Markers { split_by: self.split_by@, trigger: self.trigger@ }
    }

    /// The comment marker that is put in front of a commented line.
    pub closed spec fn comment_char(&self) -> Seq<char> {
        self.comment_char@
    }

    /// Every line that was handed in so far, in order. Its length is the
    /// index of the next line.
    pub closed spec fn history(&self) -> Seq<Line> {
        self.seen@
    }

    /// The chunk that is open after the lines handed in so far.
    pub open spec fn open_chunk(&self) -> ChunkView {
        chunks_of(self.history(), self.markers()).last()
    }

    /// What would be written if the open chunk were closed now.
    pub open spec fn pending_text(&self) -> Seq<char> {
        self.open_chunk().text(self.comment_char())
    }

    /// The chunk that is held is the open chunk of the lines handed in.
    pub closed spec fn wf(&self) -> bool {
        self.chunk@ == self.open_chunk()
    }

    /// A chunker at the start of a stream. The trigger word is folded to
    /// upper case once, here, as every line will be.
    pub fn new(split_by: &str, comment_if: &str, comment_char: &str) -> (chunker: Chunker)
        ensures
            chunker.wf(),
            chunker.markers() == Markers::of(split_by@, comment_if@),
            chunker.comment_char() == comment_char@,
            chunker.history() == Seq::<Line>::empty(),
    {
        let trigger = comment_if.to_uppercase();
        Chunker::with_folded_trigger(split_by, trigger.as_str(), comment_char)
    }

    /// A chunker at the start of a stream, for a trigger that is already in
    /// the folded form in which it will be looked for.
    pub fn with_folded_trigger(split_by: &str, trigger: &str, comment_char: &str) -> (chunker:
        Chunker)
        ensures
            chunker.wf(),
            chunker.markers() == (Markers { split_by: split_by@, trigger: trigger@ }),
            chunker.comment_char() == comment_char@,
            chunker.history() == Seq::<Line>::empty(),
    {
        Chunker {
            split_by: split_by.to_owned(),
            trigger: trigger.to_owned(),
            comment_char: comment_char.to_owned(),
            chunk: Chunk::new(),
            seen: Ghost(Seq::empty()),
        }
    }

    /// The open chunk.
    pub fn chunk(&self) -> (chunk: &Chunk)
        requires
            self.wf(),
        ensures
            chunk@ == self.open_chunk(),
    {
        &self.chunk
    }

    /// Takes the next line of the stream. If the line begins a new chunk,
    /// the chunk that was open is closed and its text is returned; the line
    /// then joins the open chunk. The line is folded to upper case to look
    /// for the trigger.
    pub fn process(&mut self, line: String) -> (flushed: Option<String>)
        requires
            old(self).wf(),
        ensures
            final(self).wf(),
            final(self).markers() == old(self).markers(),
            final(self).comment_char() == old(self).comment_char(),
            final(self).history() == old(self).history().push(Line::of(line@)),
            flushed is Some <==> (old(self).history().len() > 0 && occurs_in(
                old(self).markers().split_by,
                line@,
            )),
            flushed matches Some(text) ==> text@ == old(self).pending_text(),
    {
        let folded = line.to_uppercase();
        self.process_folded(line, folded.as_str())
    }

    /// Takes the next line of the stream together with its folded form, in
    /// which the trigger is looked for. If the line begins a new chunk, the
    /// chunk that was open is closed and its text is returned; the line then
    /// joins the open chunk.
    pub fn process_folded(&mut self, line: String, folded: &str) -> (flushed: Option<String>)
        requires
            old(self).wf(),
        ensures
            final(self).wf(),
            final(self).markers() == old(self).markers(),
            final(self).comment_char() == old(self).comment_char(),
            final(self).history() == old(self).history().push(
                Line { text: line@, folded: folded@ },
            ),
            flushed is Some <==> (old(self).history().len() > 0 && occurs_in(
                old(self).markers().split_by,
                line@,
            )),
            flushed matches Some(text) ==> text@ == old(self).pending_text(),
    {
        let ghost before = self.seen@;
        let ghost after = before.push(Line { text: line@, folded: folded@ });
        let ghost m = self.markers();
        proof {
            lemma_open_chunk(before, m);
            assert(after.drop_last() =~= before);
            assert(after.last() == Line { text: line@, folded: folded@ });
        }
        let mut flushed: Option<String> = None;
        // Every line joins the open chunk, so that chunk is empty only
        // before the first line: the first line never closes it.
        if self.chunk.lines.len() > 0 && holds(line.as_str(), self.split_by.as_str()) {
            flushed = Some(self.chunk.render(self.comment_char.as_str()));
            self.chunk = Chunk::new();
        }
        assert(flushed is Some == opens_chunk(after, m, after.len() - 1));
        if !self.chunk.comment_out && holds(folded, self.trigger.as_str()) {
            self.chunk.comment_out = true;
        }
        self.chunk.lines.push(line);
        self.seen = Ghost(after);
        assert(self.chunk@.lines =~= self.open_chunk().lines);
        flushed
    }

    /// Ends the stream: closes the open chunk and returns its text. For a
    /// stream without lines the text is empty.
    pub fn finalize(self) -> (text: String)
        requires
            self.wf(),
        ensures
            text@ == self.pending_text(),
    {
        self.chunk.render(self.comment_char.as_str())
    }
}

} // verus!
