//! Comments out every chunk of a line stream that holds a trigger word.
//!
//! A stream of text lines is cut into chunks at each line that holds a split
//! marker (the first line never cuts). A chunk in which any line holds the
//! trigger, compared without regard to case, is written with every one of
//! its lines behind a comment marker; every other chunk is written as it
//! came. Each written line ends in a single newline.

pub mod chunk;
pub mod chunker;
pub mod laws;
pub mod model;
pub mod text;
pub mod transform;

pub use chunk::Chunk;
pub use chunker::Chunker;
pub use transform::comment_chunks;
