//! The two tables the scan fills: inode number to most recent directory
//! entry, and inode number to fragment list. Both are association vectors,
//! looked up by the first matching inode number and iterated in insertion
//! order, so a scan of a given image always yields the same tables.

use vstd::prelude::*;
use crate::node::{Jffs2Dirent, Jffs2Inode, SpecDirent};

verus! {

/// Index of the first record for `ino`, if one is held.
pub open spec fn spec_find_dirent(t: Seq<SpecDirent>, ino: u32) -> Option<int>
    decreases t.len(),
{
    if t.len() == 0 {
        None
    } else if t[0].ino == ino {
        Some(0)
    } else {
        match spec_find_dirent(t.drop_first(), ino) {
            None => None,
            Some(i) => Some(i + 1),
        }
    }
}

/// The record held for `ino`, if any.
pub open spec fn spec_dirent_lookup(t: Seq<SpecDirent>, ino: u32) -> Option<SpecDirent> {
    match spec_find_dirent(t, ino) {
        None => None,
        Some(i) => Some(t[i]),
    }
}

/// `spec_find_dirent` returns the first index whose record is for `ino`.
pub proof fn lemma_find_dirent_is_first(t: Seq<SpecDirent>, ino: u32)
    ensures
        (match spec_find_dirent(t, ino) {
            None => forall|j: int| 0 <= j < t.len() ==> t[j].ino != ino,
            Some(i) => 0 <= i < t.len() && t[i].ino == ino && (forall|j: int|
                0 <= j < i ==> t[j].ino != ino),
        }),
    decreases t.len(),
{
    if t.len() > 0 && t[0].ino != ino {
        lemma_find_dirent_is_first(t.drop_first(), ino);
        assert(forall|j: int| 1 <= j < t.len() ==> t.drop_first()[j - 1] == #[trigger] t[j]);
    }
}

/// Conversely, the first index whose record is for `ino` is what
/// `spec_find_dirent` returns.
pub proof fn lemma_first_is_find_dirent(t: Seq<SpecDirent>, ino: u32, i: int)
    requires
        0 <= i < t.len(),
        t[i].ino == ino,
        forall|j: int| 0 <= j < i ==> t[j].ino != ino,
    ensures
        spec_find_dirent(t, ino) == Some(i),
    decreases t.len(),
{
    if t[0].ino != ino {
        lemma_first_is_find_dirent(t.drop_first(), ino, i - 1);
    }
}

/// How one parsed dirent changes the table: a record for a new inode is
/// appended; a record for a known inode replaces the held one unless the
/// held version is strictly greater (so on equal versions the later-seen
/// record wins, matching append-only log semantics).
pub open spec fn spec_dirent_insert(t: Seq<SpecDirent>, d: SpecDirent) -> Seq<SpecDirent> {
    match spec_find_dirent(t, d.ino) {
        None => t.push(d),
        Some(i) => if t[i].version > d.version {
            t
        } else {
            t.update(i, d)
        },
    }
}

/// Map from inode number to its most recent directory entry.
#[derive(Debug, Clone)]
pub struct DirentTable {
    /// Records in insertion order; at most one per inode number.
    pub recs: Vec<Jffs2Dirent>,
}

impl View for DirentTable {
    type V = Seq<SpecDirent>;

    open spec fn view(&self) -> Seq<SpecDirent> {
        self.recs@.map_values(|d: Jffs2Dirent| d@)
    }
}

impl DirentTable {
    /// An empty table.
    pub fn new() -> (r: DirentTable)
        ensures
            r@ == Seq::<SpecDirent>::empty(),
    {
        let r = DirentTable { recs: Vec::new() };
        proof {
            assert(r@ =~= Seq::<SpecDirent>::empty());
        }
        r
    }

    /// Index of the record for `ino`, if one is held.
    pub fn find_index(&self, ino: u32) -> (r: Option<usize>)
        ensures
            (match r {
                None => spec_find_dirent(self@, ino) is None,
                Some(i) => spec_find_dirent(self@, ino) == Some(i as int) && i
                    < self.recs@.len() && self@[i as int].ino == ino,
            }),
    {
        let mut i: usize = 0;
        while i < self.recs.len()
            invariant
                0 <= i <= self@.len(),
                self@.len() == self.recs@.len(),
                forall|j: int| 0 <= j < i ==> self@[j].ino != ino,
            decreases self@.len() - i,
        {
            if self.recs[i].ino == ino {
                proof {
                    lemma_first_is_find_dirent(self@, ino, i as int);
                }
                return Some(i);
            }
            i = i + 1;
        }
        proof {
            lemma_find_dirent_is_first(self@, ino);
        }
        None
    }

    /// The record held for `ino`, if any.
    pub fn get(&self, ino: u32) -> (r: Option<&Jffs2Dirent>)
        ensures
            (match r {
                None => spec_dirent_lookup(self@, ino) is None,
                Some(d) => spec_dirent_lookup(self@, ino) == Some(d@),
            }),
    {
        match self.find_index(ino) {
            None => None,
            Some(i) => Some(&self.recs[i]),
        }
    }

    /// Records the parsed dirent, keeping for its inode the most recent
    /// version.
    pub fn insert(&mut self, d: Jffs2Dirent)
        ensures
            final(self)@ == spec_dirent_insert(old(self)@, d@),
    {
        match self.find_index(d.ino) {
            None => {
                self.recs.push(d);
                proof {
                    assert(self@ =~= spec_dirent_insert(old(self)@, d@));
                }
            },
            Some(i) => {
                if self.recs[i].version > d.version {
                } else {
                    self.recs.set(i, d);
                    proof {
                        assert(self@ =~= old(self)@.update(i as int, d@));
                    }
                }
            },
        }
    }
}

/// Index of the first fragment list for `ino`, if one is held.
pub open spec fn spec_find_frags(t: Seq<(u32, Seq<Jffs2Inode>)>, ino: u32) -> Option<int>
    decreases t.len(),
{
    if t.len() == 0 {
        None
    } else if t[0].0 == ino {
        Some(0)
    } else {
        match spec_find_frags(t.drop_first(), ino) {
            None => None,
            Some(i) => Some(i + 1),
        }
    }
}

/// The fragment list held for `ino`, if any.
pub open spec fn spec_frags_lookup(t: Seq<(u32, Seq<Jffs2Inode>)>, ino: u32) -> Option<
    Seq<Jffs2Inode>,
> {
    match spec_find_frags(t, ino) {
        None => None,
        Some(i) => Some(t[i].1),
    }
}

/// `spec_find_frags` returns the first index whose list is for `ino`.
pub proof fn lemma_find_frags_is_first(t: Seq<(u32, Seq<Jffs2Inode>)>, ino: u32)
    ensures
        (match spec_find_frags(t, ino) {
            None => forall|j: int| 0 <= j < t.len() ==> t[j].0 != ino,
            Some(i) => 0 <= i < t.len() && t[i].0 == ino && (forall|j: int|
                0 <= j < i ==> t[j].0 != ino),
        }),
    decreases t.len(),
{
    if t.len() > 0 && t[0].0 != ino {
        lemma_find_frags_is_first(t.drop_first(), ino);
        assert(forall|j: int| 1 <= j < t.len() ==> t.drop_first()[j - 1] == #[trigger] t[j]);
    }
}

/// Conversely, the first index whose list is for `ino` is what
/// `spec_find_frags` returns.
pub proof fn lemma_first_is_find_frags(t: Seq<(u32, Seq<Jffs2Inode>)>, ino: u32, i: int)
    requires
        0 <= i < t.len(),
        t[i].0 == ino,
        forall|j: int| 0 <= j < i ==> t[j].0 != ino,
    ensures
        spec_find_frags(t, ino) == Some(i),
    decreases t.len(),
{
    if t[0].0 != ino {
        lemma_first_is_find_frags(t.drop_first(), ino, i - 1);
    }
}

/// Whether the list holds a fragment at the same logical offset with a
/// strictly greater version, which makes `f` stale.
pub open spec fn spec_frag_stale(l: Seq<Jffs2Inode>, f: Jffs2Inode) -> bool {
    exists|k: int| 0 <= k < l.len() && l[k].offset == f.offset && l[k].version > f.version
}

/// How one parsed fragment changes the table: a fragment of a new inode
/// starts its list; a stale fragment is discarded; any other fragment is
/// appended to its inode's list.
pub open spec fn spec_inode_insert(
    t: Seq<(u32, Seq<Jffs2Inode>)>,
    ino: u32,
    f: Jffs2Inode,
) -> Seq<(u32, Seq<Jffs2Inode>)> {
    match spec_find_frags(t, ino) {
        None => t.push((ino, seq![f])),
        Some(i) => if spec_frag_stale(t[i].1, f) {
            t
        } else {
            t.update(i, (ino, t[i].1.push(f)))
        },
    }
}

/// Whether the list holds a fragment that makes `f` stale.
fn has_stale(l: &Vec<Jffs2Inode>, f: &Jffs2Inode) -> (r: bool)
    ensures
        r == spec_frag_stale(l@, *f),
{
    let mut k: usize = 0;
    while k < l.len()
        invariant
            0 <= k <= l@.len(),
            forall|j: int|
                0 <= j < k ==> !(l@[j].offset == f.offset && l@[j].version > f.version),
        decreases l@.len() - k,
    {
        if l[k].offset == f.offset && l[k].version > f.version {
            assert(spec_frag_stale(l@, *f)) by {
                assert(l@[k as int].offset == f.offset && l@[k as int].version > f.version);
            }
            return true;
        }
        k = k + 1;
    }
    false
}

/// One inode's fragment list, keyed by its inode number.
#[derive(Debug, Clone)]
pub struct InodeList {
    /// Inode number the fragments belong to.
    pub ino: u32,
    /// Fragments in the order the scan recorded them.
    pub frags: Vec<Jffs2Inode>,
}

/// Map from inode number to the fragments of its file contents.
#[derive(Debug, Clone)]
pub struct InodeTable {
    /// Lists in insertion order; at most one per inode number.
    pub recs: Vec<InodeList>,
}

impl View for InodeTable {
    type V = Seq<(u32, Seq<Jffs2Inode>)>;

    open spec fn view(&self) -> Seq<(u32, Seq<Jffs2Inode>)> {
        self.recs@.map_values(|l: InodeList| (l.ino, l.frags@))
    }
}

impl InodeTable {
    /// An empty table.
    pub fn new() -> (r: InodeTable)
        ensures
            r@ == Seq::<(u32, Seq<Jffs2Inode>)>::empty(),
    {
        let r = InodeTable { recs: Vec::new() };
        proof {
            assert(r@ =~= Seq::<(u32, Seq<Jffs2Inode>)>::empty());
        }
        r
    }

    /// Index of the fragment list for `ino`, if one is held.
    pub fn find_index(&self, ino: u32) -> (r: Option<usize>)
        ensures
            (match r {
                None => spec_find_frags(self@, ino) is None,
                Some(i) => spec_find_frags(self@, ino) == Some(i as int) && i
                    < self.recs@.len() && self@[i as int].0 == ino,
            }),
    {
        let mut i: usize = 0;
        while i < self.recs.len()
            invariant
                0 <= i <= self@.len(),
                self@.len() == self.recs@.len(),
                forall|j: int| 0 <= j < i ==> self@[j].0 != ino,
            decreases self@.len() - i,
        {
            if self.recs[i].ino == ino {
                proof {
                    lemma_first_is_find_frags(self@, ino, i as int);
                }
                return Some(i);
            }
            i = i + 1;
        }
        proof {
            lemma_find_frags_is_first(self@, ino);
        }
        None
    }

    /// The fragment list held for `ino`, if any.
    pub fn get(&self, ino: u32) -> (r: Option<&Vec<Jffs2Inode>>)
        ensures
            (match r {
                None => spec_frags_lookup(self@, ino) is None,
                Some(l) => spec_frags_lookup(self@, ino) == Some(l@),
            }),
    {
        match self.find_index(ino) {
            None => None,
            Some(i) => Some(&self.recs[i].frags),
        }
    }

    /// Records the parsed fragment under `ino`, discarding it when a
    /// fragment at the same offset with a strictly greater version is held.
    pub fn insert(&mut self, ino: u32, f: Jffs2Inode)
        ensures
            final(self)@ == spec_inode_insert(old(self)@, ino, f),
    {
        match self.find_index(ino) {
            None => {
                let mut frags: Vec<Jffs2Inode> = Vec::new();
                frags.push(f);
                self.recs.push(InodeList { ino, frags });
                proof {
                    assert(self@ =~= spec_inode_insert(old(self)@, ino, f));
                }
            },
            Some(i) => {
                if !has_stale(&self.recs[i].frags, &f) {
                    let ghost old_pair = self@[i as int];
                    let mut list = self.recs.remove(i);
                    list.frags.push(f);
                    self.recs.insert(i, list);
                    proof {
                        assert(self@ =~= old(self)@.update(
                            i as int,
                            (ino, old_pair.1.push(f)),
                        ));
                    }
                }
            },
        }
    }
}

/// Version wins: when a table without a record for some inode takes two
/// dirents for that inode whose versions are ordered, the record it then
/// holds is the one with the greater version, whichever came first in the
/// image.
pub proof fn lemma_version_wins(t: Seq<SpecDirent>, d1: SpecDirent, d2: SpecDirent)
    requires
        spec_find_dirent(t, d1.ino) is None,
        d1.ino == d2.ino,
        d1.version < d2.version,
    ensures
        spec_dirent_lookup(spec_dirent_insert(spec_dirent_insert(t, d1), d2), d2.ino) == Some(d2),
{
    let n = t.len() as int;
    let t1 = spec_dirent_insert(t, d1);
    assert(t1 == t.push(d1));
    lemma_find_dirent_is_first(t, d1.ino);
    lemma_first_is_find_dirent(t1, d1.ino, n);
    let t2 = spec_dirent_insert(t1, d2);
    assert(t2 == t1.update(n, d2));
    lemma_first_is_find_dirent(t2, d2.ino, n);
}

} // verus!
