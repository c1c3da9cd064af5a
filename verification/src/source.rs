//! The text of one file and the path that identifies it.

use vstd::prelude::*;

verus! {

/// The root that a path is relative to.
#[derive(Clone, Copy, Debug, PartialEq, Eq, Structural)]
pub enum Prefix {
    Root,
    Hhi,
    Dummy,
    Tmp,
}

/// The path that identifies a file. Nothing is read from disk through it.
#[derive(Debug, PartialEq, Eq)]
pub struct RelativePath {
    pub prefix: Prefix,
    pub path: String,
}

/// The bytes of one file, borrowed from the caller, with the file's path.
#[derive(Debug, PartialEq, Eq)]
pub struct SourceText<'a> {
    pub file_path: RelativePath,
    pub text: &'a [u8],
}

impl<'a> SourceText<'a> {
    /// Whether this is the source of `text` under the path `file_path`.
    pub open spec fn is_source_of(&self, file_path: RelativePath, text: Seq<u8>) -> bool {
        self.file_path == file_path && self.text@ == text
    }

    /// Puts a path and the bytes of its file together.
    pub fn make(file_path: RelativePath, text: &'a [u8]) -> (source: SourceText<'a>)
        ensures
            source.is_source_of(file_path, text@),
    {
        SourceText { file_path, text }
    }
}

} // verus!
