//! The output model of enumeration: one entry per resolved dirent, with
//! the fragment list of its file contents when it is a regular file.

use vstd::prelude::*;
use crate::node::Jffs2Inode;

verus! {

/// Mathematical model of an entry.
pub struct SpecEntry {
    pub inodes: Seq<Jffs2Inode>,
    pub is_file: bool,
    pub path: Seq<char>,
}

/// One resolved entry of the image: a normalized relative path, whether it
/// is a regular file, and for files the fragments of its contents.
#[derive(Debug, Clone)]
pub struct Jffs2Entry {
    /// Fragments of the file contents, in ascending logical offset order
    /// when the entry comes from enumeration; empty for a directory.
    pub inodes: Vec<Jffs2Inode>,
    /// Whether the entry is a regular file rather than a directory.
    pub is_file: bool,
    /// Normalized relative path of the entry.
    pub path: String,
}

impl View for Jffs2Entry {
    type V = SpecEntry;

    open spec fn view(&self) -> SpecEntry {
        SpecEntry { inodes: self.inodes@, is_file: self.is_file, path: self.path@ }
    }
}

/// Sum of the decompressed sizes of a fragment list.
pub open spec fn sum_dsize(s: Seq<Jffs2Inode>) -> int
    decreases s.len(),
{
    if s.len() == 0 {
        0
    } else {
        sum_dsize(s.drop_last()) + s.last().dsize
    }
}

/// A prefix never sums to more than the whole list.
pub proof fn lemma_sum_dsize_prefix(s: Seq<Jffs2Inode>, i: int)
    requires
        0 <= i <= s.len(),
    ensures
        sum_dsize(s.take(i)) <= sum_dsize(s),
        sum_dsize(s) >= 0,
    decreases s.len(),
{
    if s.len() == 0 {
        assert(s.take(i) =~= s);
    } else {
        lemma_sum_dsize_prefix(s.drop_last(), if i <= s.len() - 1 {
            i
        } else {
            s.len() - 1
        });
        if i == s.len() {
            assert(s.take(i) =~= s);
        } else {
            assert(s.take(i) =~= s.drop_last().take(i));
        }
    }
}

impl Jffs2Entry {
    /// The original file size of the dirent: the sum of its fragments'
    /// decompressed sizes. The sum is returned as 64 bits, which it must
    /// therefore fit.
    pub fn size(&self) -> (r: u64)
        requires
            sum_dsize(self@.inodes) <= u64::MAX,
        ensures
            r == sum_dsize(self@.inodes),
    {
        let mut dirent_size: u64 = 0;
        let mut i: usize = 0;
        while i < self.inodes.len()
            invariant
                0 <= i <= self@.inodes.len(),
                sum_dsize(self@.inodes) <= u64::MAX,
                dirent_size == sum_dsize(self@.inodes.take(i as int)),
            decreases self@.inodes.len() - i,
        {
            proof {
                lemma_sum_dsize_prefix(self@.inodes, i as int + 1);
                assert(self@.inodes.take(i as int + 1).drop_last() =~= self@.inodes.take(i as int));
                assert(self@.inodes.take(i as int + 1).last() == self@.inodes[i as int]);
            }
            dirent_size = dirent_size + self.inodes[i].decompressed_size() as u64;
            i = i + 1;
        }
        proof {
            assert(self@.inodes.take(self@.inodes.len() as int) =~= self@.inodes);
        }
        dirent_size
    }

    /// Returns true if the current dirent represents a file; otherwise the
    /// current dirent represents a folder.
    pub fn is_file(&self) -> (r: bool)
        ensures
            r == self.is_file,
    {
        self.is_file
    }

    /// Path of the current dirent within the filesystem.
    pub fn path(&self) -> (r: &String)
        ensures
            r@ == self@.path,
    {
        &self.path
    }
}

} // verus!
