//! A chunk: a run of lines that is written out together, with or without
//! the comment marker in front of each line.

use vstd::prelude::*;
use vstd::string::StringExecFns;

verus! {

/// One line as it is written: the line behind the comment marker and a
/// space if it is commented out, the bare line if not, and a newline after
/// either.
pub open spec fn rendered_line(commented: bool, comment_char: Seq<char>, line: Seq<char>) -> Seq<
    char,
> {
    if commented {
        comment_char + seq![' '] + line + seq!['\n']
    } else {
        line + seq!['\n']
    }
}

/// The characters of each string, in order.
pub open spec fn texts_of(lines: Seq<String>) -> Seq<Seq<char>> {
    lines.map_values(|line: String| line@)
}

/// What a chunk is, as plain values.
pub struct ChunkView {
    /// Whether every line of the chunk is written behind the comment marker.
    pub comment_out: bool,
    /// The lines of the chunk in the order they came, without line endings.
    pub lines: Seq<Seq<char>>,
}

impl ChunkView {
    /// The chunk that holds nothing yet.
    pub open spec fn empty() -> ChunkView {
        ChunkView { comment_out: false, lines: Seq::empty() }
    }

    /// The chunk after one more line. A line that holds the trigger raises
    /// the flag; nothing lowers it.
    pub open spec fn with_line(self, line: Seq<char>, triggers: bool) -> ChunkView {
        ChunkView { comment_out: self.comment_out || triggers, lines: self.lines.push(line) }
    }

    /// Each line of the chunk as it is written.
    pub open spec fn rendered_lines(self, comment_char: Seq<char>) -> Seq<Seq<char>> {
        self.lines.map_values(|line: Seq<char>| rendered_line(self.comment_out, comment_char, line))
    }

    /// Everything that is written for the chunk: its lines as they are
    /// written, one after the other.
    pub open spec fn text(self, comment_char: Seq<char>) -> Seq<char> {
        self.rendered_lines(comment_char).flatten()
    }
}

/// A run of lines and the decision whether to comment them out.
#[derive(Debug, PartialEq, Eq)]
pub struct Chunk {
    pub comment_out: bool,
    pub lines: Vec<String>,
}

impl View for Chunk {
    type V = ChunkView;

    open spec fn view(&self) -> ChunkView {
        ChunkView { comment_out: self.comment_out, lines: texts_of(self.lines@) }
    }
}

impl Chunk {
    /// An empty chunk that is not commented out.
    pub fn new() -> (chunk: Chunk)
        ensures
            chunk@ == ChunkView::empty(),
    {
        let chunk = Chunk { comment_out: false, lines: Vec::new() };
        assert(chunk@.lines =~= Seq::empty());
        chunk
    }

    /// Turns one line into what is written for it in this chunk.
    pub fn process_line(&self, line: String, comment_char: &str) -> (out: String)
        ensures
            out@ == rendered_line(self.comment_out, comment_char@, line@),
            out@.len() > 0 && out@.last() == '\n',
    {
        proof {
            reveal_strlit(" ");
            reveal_strlit("\n");
        }
        let mut out = if self.comment_out {
            let mut head = String::from_str(comment_char);
            head.append(" ");
            head.append(line.as_str());
            head
        } else {
            line
        };
        out.append("\n");
        assert(" "@ =~= seq![' ']);
        assert("\n"@ =~= seq!['\n']);
        out
    }

    /// Everything that is written for this chunk: each of its lines in
    /// turn, as `process_line` gives it.
    pub fn render(&self, comment_char: &str) -> (out: String)
        ensures
            out@ == self@.text(comment_char@),
    {
        let mut out = String::new();
        let n: usize = self.lines.len();
        let mut i: usize = 0;
        while i < n
            invariant
                n == self.lines.len(),
                i <= n,
                out@ == self@.rendered_lines(comment_char@).take(i as int).flatten(),
            decreases n - i,
        {
            let line = self.process_line(self.lines[i].clone(), comment_char);
            out.append(line.as_str());
            proof {
                let all = self@.rendered_lines(comment_char@);
                assert(all.take(i + 1) =~= all.take(i as int).push(all[i as int]));
                all.take(i as int).lemma_flatten_push(all[i as int]);
            }
            i += 1;
        }
        proof {
            let all = self@.rendered_lines(comment_char@);
            assert(all.take(n as int) =~= all);
        }
        out
    }
}

} // verus!
