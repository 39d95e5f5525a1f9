//! Reader for JFFS2 (Journalling Flash File System v2) images.
//!
//! A JFFS2 image is a linear, append-only log of self-describing nodes.
//! Reconstructing the live tree means scanning every node, keeping the most
//! recent version of each directory entry and each inode fragment, resolving
//! paths through the parent-inode graph, reassembling fragments in logical
//! offset order, and decompressing each fragment with the codec named in its
//! header.

pub mod api;
pub mod bytes;
pub mod codec;
pub mod entry;
pub mod err;
pub mod node;
pub mod path;
pub mod reader;
pub mod reassemble;
pub mod resolve;
pub mod rtime;
pub mod table;

pub use api::{extract_jffs2, list_jffs2, ExtractedEntry};
pub use codec::{ExternalCodec, NoExternalCodecs};
pub use entry::Jffs2Entry;
pub use err::Jffs2Error;
pub use node::{Jffs2Dirent, Jffs2Inode};
pub use path::JffsPathFixer;
pub use reader::Jffs2Reader;
