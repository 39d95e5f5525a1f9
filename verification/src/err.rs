//! Error taxonomy of the reader. Every failure of the library is one of
//! these variants; I/O failures belong to the callers that do I/O.

use vstd::prelude::*;

verus! {

/// Why an operation on a JFFS2 image failed.
#[derive(Debug, Clone, Copy, PartialEq, Eq, Structural)]
pub enum Jffs2Error {
    /// The initial two bytes match neither byte order of the JFFS2 magic.
    NotJffs2,
    /// A header, name or payload extends past the end of its buffer.
    Truncated,
    /// A directory-entry name is not valid UTF-8.
    BadName,
    /// A directory entry references a parent inode that has no entry.
    Unresolved,
    /// Path resolution exceeded the hop bound, so the parent chain loops.
    Cycle,
    /// The codec tag names RUBINMIPS, COPY, or an unknown algorithm.
    Unsupported,
    /// A decoder rejected its input or produced fewer bytes than required.
    CodecFailure,
}

} // verus!
