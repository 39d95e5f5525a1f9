//! Path resolution: climbing from a directory entry to the synthetic root
//! inode `1` through parent-inode pointers, under a hop bound that turns a
//! looping parent chain into an error instead of an endless walk.

use vstd::prelude::*;
use crate::err::Jffs2Error;
use crate::node::{Jffs2Dirent, SpecDirent};
use crate::path::{normalize, join_components, names_to_components, spec_normalize, spec_join,
    spec_name_components, views_of};
use crate::table::{DirentTable, spec_dirent_lookup};

verus! {

/// Hop bound of path resolution; a longer parent chain counts as a cycle.
pub const RESOLVE_HOP_BOUND: u32 = 32;

/// The name components from the root down to `c`, climbing the parent
/// chain: a dirent whose parent is the root contributes its own name only;
/// any other dirent follows its parent pointer, failing `Unresolved` when
/// the parent has no entry and `Cycle` when the fuel runs out.
pub open spec fn spec_resolve_names(d: Seq<SpecDirent>, c: SpecDirent, fuel: nat) -> Result<
    Seq<Seq<char>>,
    Jffs2Error,
>
    decreases fuel,
{
    if c.pino == 1 {
        Ok(seq![c.name])
    } else {
        match spec_dirent_lookup(d, c.pino) {
            None => Err(Jffs2Error::Unresolved),
            Some(p) => if fuel <= 1 {
                Err(Jffs2Error::Cycle)
            } else {
                match spec_resolve_names(d, p, (fuel - 1) as nat) {
                    Err(e) => Err(e),
                    Ok(names) => Ok(names.push(c.name)),
                }
            },
        }
    }
}

/// The resolved, normalized path and the entry type of the dirent for
/// `ino`: `Unresolved` when no dirent is held for `ino` or for a parent on
/// the chain. The names are cut at `/` separators, the components are
/// normalized lexically, and what remains is joined with `/`.
pub open spec fn spec_resolve(d: Seq<SpecDirent>, ino: u32) -> Result<(Seq<char>, u8), Jffs2Error> {
    match spec_dirent_lookup(d, ino) {
        None => Err(Jffs2Error::Unresolved),
        Some(c) => match spec_resolve_names(d, c, RESOLVE_HOP_BOUND as nat) {
            Err(e) => Err(e),
            Ok(names) => Ok(
                (spec_join(spec_normalize(spec_name_components(names))), c.ntype),
            ),
        },
    }
}

impl DirentTable {
    /// Collects the root-first name components above and including `c`.
    fn resolve_names(&self, c: &Jffs2Dirent, fuel: u32) -> (r: Result<Vec<String>, Jffs2Error>)
        ensures
            (match spec_resolve_names(self@, c@, fuel as nat) {
                Ok(names) => r matches Ok(v) && views_of(v@) == names,
                Err(e) => r == Err::<Vec<String>, Jffs2Error>(e),
            }),
        decreases fuel,
    {
        if c.pino == 1 {
            let mut v: Vec<String> = Vec::new();
            v.push(c.fname.clone());
            proof {
                assert(views_of(v@) =~~= seq![c@.name]);
            }
            Ok(v)
        } else {
            match self.get(c.pino) {
                None => Err(Jffs2Error::Unresolved),
                Some(p) => {
                    if fuel <= 1 {
                        Err(Jffs2Error::Cycle)
                    } else {
                        match self.resolve_names(p, fuel - 1) {
                            Err(e) => Err(e),
                            Ok(names) => {
                                let mut names = names;
                                names.push(c.fname.clone());
                                proof {
                                    let snames = (match spec_resolve_names(
                                        self@,
                                        p@,
                                        (fuel - 1) as nat,
                                    ) {
                                        Ok(s) => s,
                                        Err(_) => Seq::empty(),
                                    });
                                    assert(views_of(names@) =~~= snames.push(c@.name));
                                }
                                Ok(names)
                            },
                        }
                    }
                },
            }
        }
    }

    /// Resolves the dirent for `node` to its normalized relative path and
    /// its entry type.
    pub fn resolve_dirent(&self, node: u32) -> (r: Result<(String, u8), Jffs2Error>)
        ensures
            (match spec_resolve(self@, node) {
                Ok(pt) => r matches Ok(q) && q.0@ == pt.0 && q.1 == pt.1,
                Err(e) => r matches Err(e2) && e2 == e,
            }),
    {
        let start = match self.get(node) {
            None => {
                return Err(Jffs2Error::Unresolved);
            },
            Some(d) => d,
        };
        let ntype = start.ntype;
        let names = match self.resolve_names(start, RESOLVE_HOP_BOUND) {
            Err(e) => {
                return Err(e);
            },
            Ok(v) => v,
        };
        let components = names_to_components(&names);
        let norm = normalize(&components);
        let path = join_components(&norm);
        Ok((path, ntype))
    }
}

} // verus!
