//! The output facade: enumerate the entries of an image, or extract every
//! entry to values (paths, and for regular files the reassembled bytes),
//! which a caller can then write wherever it pleases.

use vstd::prelude::*;
use crate::codec::{ExternalCodec, spec_supported};
use crate::entry::{Jffs2Entry, SpecEntry};
use crate::err::Jffs2Error;
use crate::node::{Jffs2Inode, SpecDirent, SIZE_OF_INODE};
use crate::bytes::{spec_u16_at, spec_u32_at};
use crate::reader::{Jffs2Reader, JFFS2_MAGIC, JFFS2_MAGIC_SWAPPED, spec_scan_from, spec_payload,
    pad4, JFFS2_NODETYPE_DIRENT, JFFS2_NODETYPE_INODE};
use crate::reassemble::{reassemble_sorted, sort_frags, lemma_sort_frags_contains, spec_sort_frags,
    spec_total_emit_len, spec_all_det, spec_file_bytes};
use crate::resolve::spec_resolve;
use crate::table::{spec_frags_lookup, spec_dirent_insert, spec_inode_insert, spec_find_frags};
use crate::node::{spec_parse_dirent, spec_parse_inode};

verus! {

/// Dirent type code of a directory.
pub const DT_DIR: u8 = 4;

/// Dirent type code of a regular file.
pub const DT_REG: u8 = 8;

/// The views of an entry list.
pub open spec fn entry_views(s: Seq<Jffs2Entry>) -> Seq<SpecEntry> {
    s.map_values(|e: Jffs2Entry| e@)
}

/// The entries that enumerating the dirent table from position `i` onward
/// yields: each dirent is resolved (an unresolvable or cyclic one aborts
/// the enumeration), directories carry no fragments, regular files carry
/// their inode's fragment list ordered by ascending logical offset (the
/// recorded order kept among equal offsets), and other entry types are
/// skipped.
pub open spec fn spec_entries_from(
    d: Seq<SpecDirent>,
    t: Seq<(u32, Seq<Jffs2Inode>)>,
    i: int,
) -> Result<Seq<SpecEntry>, Jffs2Error>
    decreases d.len() - i,
    when i >= 0
{
    if i >= d.len() {
        Ok(Seq::empty())
    } else {
        match spec_resolve(d, d[i].ino) {
            Err(e) => Err(e),
            Ok(pt) => match spec_entries_from(d, t, i + 1) {
                Err(e) => Err(e),
                Ok(rest) => if pt.1 == DT_DIR {
                    Ok(
                        seq![SpecEntry { inodes: Seq::empty(), is_file: false, path: pt.0 }]
                            + rest,
                    )
                } else if pt.1 == DT_REG {
                    let frags = (match spec_frags_lookup(t, d[i].ino) {
                        Some(fr) => fr,
                        None => Seq::empty(),
                    });
                    Ok(
                        seq![
                            SpecEntry {
                                inodes: spec_sort_frags(frags),
                                is_file: true,
                                path: pt.0,
                            },
                        ] + rest,
                    )
                } else {
                    Ok(rest)
                },
            },
        }
    }
}

impl Jffs2Reader {
    /// Enumerates every entry of the scanned image: resolved path, entry
    /// kind, and for regular files the fragment list in ascending offset
    /// order.
    pub fn entries(&self) -> (r: Result<Vec<Jffs2Entry>, Jffs2Error>)
        ensures
            (match spec_entries_from(self.dirents@, self.inodes@, 0) {
                Ok(es) => r matches Ok(v) && entry_views(v@) == es,
                Err(e) => r matches Err(e2) && e2 == e,
            }),
    {
        let ghost d = self.dirents@;
        let ghost t = self.inodes@;
        let mut out: Vec<Jffs2Entry> = Vec::new();
        let mut i: usize = 0;
        while i < self.dirents.recs.len()
            invariant
                0 <= i <= d.len(),
                d == self.dirents@,
                t == self.inodes@,
                d.len() == self.dirents.recs@.len(),
                spec_entries_from(d, t, 0) == (match spec_entries_from(d, t, i as int) {
                    Ok(rest) => Ok::<Seq<SpecEntry>, Jffs2Error>(entry_views(out@) + rest),
                    Err(e) => Err::<Seq<SpecEntry>, Jffs2Error>(e),
                }),
            decreases d.len() - i,
        {
            let ino = self.dirents.recs[i].ino;
            proof {
                assert(d[i as int].ino == ino);
            }
            let ghost out_pre = entry_views(out@);
            match self.dirents.resolve_dirent(ino) {
                Err(e) => {
                    return Err(e);
                },
                Ok(pt) => {
                    let (path, ntype) = pt;
                    if ntype == DT_DIR {
                        out.push(Jffs2Entry { inodes: Vec::new(), is_file: false, path });
                    } else if ntype == DT_REG {
                        let frags = match self.inodes.get(ino) {
                            Some(v) => sort_frags(v),
                            None => {
                                proof {
                                    assert(spec_sort_frags(Seq::<Jffs2Inode>::empty())
                                        =~= Seq::<Jffs2Inode>::empty());
                                }
                                Vec::new()
                            },
                        };
                        out.push(Jffs2Entry { inodes: frags, is_file: true, path });
                    }
                    proof {
                        let rest1 = (match spec_entries_from(d, t, i as int + 1) {
                            Ok(rest) => rest,
                            Err(_) => Seq::empty(),
                        });
                        if spec_entries_from(d, t, i as int + 1) is Ok {
                            assert(entry_views(out@) =~~= (match spec_entries_from(
                                d,
                                t,
                                i as int,
                            ) {
                                Ok(all) => out_pre + all.take(all.len() - rest1.len()),
                                Err(_) => out_pre,
                            }));
                            assert((entry_views(out@) + rest1) =~~= (match spec_entries_from(
                                d,
                                t,
                                i as int,
                            ) {
                                Ok(all) => out_pre + all,
                                Err(_) => out_pre,
                            }));
                        }
                    }
                },
            }
            i = i + 1;
        }
        Ok(out)
    }
}

/// Whether every fragment held in the table points inside an image of
/// length `n`.
pub open spec fn spec_frags_in_bounds(t: Seq<(u32, Seq<Jffs2Inode>)>, n: int) -> bool {
    forall|i: int, j: int|
        0 <= i < t.len() && 0 <= j < t[i].1.len() ==> ((#[trigger] t[i].1[j]).data as int)
            + t[i].1[j].csize <= n
}

/// Recording one in-bounds fragment keeps the table in bounds.
proof fn lemma_insert_in_bounds(t: Seq<(u32, Seq<Jffs2Inode>)>, ino: u32, f: Jffs2Inode, n: int)
    requires
        spec_frags_in_bounds(t, n),
        f.data + f.csize <= n,
    ensures
        spec_frags_in_bounds(spec_inode_insert(t, ino, f), n),
{
    let t2 = spec_inode_insert(t, ino, f);
    crate::table::lemma_find_frags_is_first(t, ino);
    assert forall|i: int, j: int|
        0 <= i < t2.len() && 0 <= j < t2[i].1.len() implies ((#[trigger] t2[i].1[j]).data as int)
        + t2[i].1[j].csize <= n by {
        match spec_find_frags(t, ino) {
            None => {
                if i < t.len() {
                    assert(t2[i] == t[i]);
                } else {
                    assert(t2[i].1 == seq![f]);
                }
            },
            Some(k) => {
                if !crate::table::spec_frag_stale(t[k].1, f) {
                    if i == k {
                        if j < t[k].1.len() {
                            assert(t2[i].1[j] == t[k].1[j]);
                        } else {
                            assert(t2[i].1[j] == f);
                        }
                    } else {
                        assert(t2[i] == t[i]);
                    }
                }
            },
        }
    }
}

/// Every fragment a scan records points inside the image, on the error
/// path too: its compressed bytes were checked against the node payload,
/// which lies in the image.
pub proof fn lemma_scan_in_bounds(
    data: Seq<u8>,
    le: bool,
    idx: int,
    d: Seq<SpecDirent>,
    t: Seq<(u32, Seq<Jffs2Inode>)>,
)
    requires
        0 <= idx,
        data.len() <= u32::MAX,
        spec_frags_in_bounds(t, data.len() as int),
    ensures
        spec_frags_in_bounds(spec_scan_from(data, le, idx, d, t).1, data.len() as int),
    decreases data.len() - idx,
{
    reveal_with_fuel(spec_scan_from, 1);
    if idx + 12 > data.len() {
    } else if spec_u16_at(data, le, idx) != JFFS2_MAGIC {
        lemma_scan_in_bounds(data, le, idx + 4, d, t);
    } else {
        let nodetype = spec_u16_at(data, le, idx + 2);
        let totlen = spec_u32_at(data, le, idx + 4);
        if totlen == 0 || totlen > data.len() - (idx + 12) {
        } else {
            let payload = spec_payload(data, idx, totlen);
            let next = idx + pad4(totlen);
            assert(pad4(totlen) >= totlen);
            if nodetype == JFFS2_NODETYPE_DIRENT {
                match spec_parse_dirent(payload, le) {
                    Err(_) => {},
                    Ok(None) => {
                        lemma_scan_in_bounds(data, le, next, d, t);
                    },
                    Ok(Some(rec)) => {
                        lemma_scan_in_bounds(data, le, next, spec_dirent_insert(d, rec), t);
                    },
                }
            } else if nodetype == JFFS2_NODETYPE_INODE {
                match spec_parse_inode(payload, le, (idx + 12 + 56) as u32) {
                    Err(_) => {},
                    Ok(None) => {
                        lemma_scan_in_bounds(data, le, next, d, t);
                    },
                    Ok(Some(p)) => {
                        assert(payload.len() == totlen - 12);
                        assert(SIZE_OF_INODE + p.1.csize <= payload.len());
                        assert(p.1.data == idx + 12 + 56);
                        assert(p.1.data + p.1.csize <= data.len());
                        lemma_insert_in_bounds(t, p.0, p.1, data.len() as int);
                        lemma_scan_in_bounds(data, le, next, d, spec_inode_insert(t, p.0, p.1));
                    },
                }
            } else {
                lemma_scan_in_bounds(data, le, next, d, t);
            }
        }
    }
}

/// Every fragment of every enumerated entry points inside an image whose
/// table does.
pub proof fn lemma_entries_frags_in_bounds(
    d: Seq<SpecDirent>,
    t: Seq<(u32, Seq<Jffs2Inode>)>,
    i: int,
    n: int,
)
    requires
        0 <= i,
        spec_frags_in_bounds(t, n),
    ensures
        (match spec_entries_from(d, t, i) {
            Ok(es) => forall|k: int, j: int|
                #![trigger es[k].inodes[j]]
                0 <= k < es.len() && 0 <= j < es[k].inodes.len() ==> (es[k].inodes[j].data as int)
                    + es[k].inodes[j].csize <= n,
            Err(_) => true,
        }),
    decreases d.len() - i,
{
    if i < d.len() {
        lemma_entries_frags_in_bounds(d, t, i + 1, n);
        match spec_resolve(d, d[i].ino) {
            Err(_) => {},
            Ok(pt) => {
                match spec_entries_from(d, t, i + 1) {
                    Err(_) => {},
                    Ok(rest) => {
                        if pt.1 == DT_DIR || pt.1 == DT_REG {
                            let frags = (match spec_frags_lookup(t, d[i].ino) {
                                Some(fr) => fr,
                                None => Seq::<Jffs2Inode>::empty(),
                            });
                            let head = (if pt.1 == DT_DIR {
                                SpecEntry { inodes: Seq::empty(), is_file: false, path: pt.0 }
                            } else {
                                SpecEntry {
                                    inodes: spec_sort_frags(frags),
                                    is_file: true,
                                    path: pt.0,
                                }
                            });
                            let es = seq![head] + rest;
                            lemma_sort_frags_contains(frags);
                            crate::table::lemma_find_frags_is_first(t, d[i].ino);
                            assert forall|k: int, j: int|
                                #![trigger es[k].inodes[j]]
                                0 <= k < es.len() && 0 <= j < es[k].inodes.len() implies (
                            es[k].inodes[j].data as int) + es[k].inodes[j].csize <= n by {
                                if k == 0 {
                                    if pt.1 == DT_REG {
                                        assert(frags.contains(es[0].inodes[j]));
                                        let m = choose|m: int|
                                            0 <= m < frags.len() && frags[m] == es[0].inodes[j];
                                        if spec_frags_lookup(t, d[i].ino) is Some {
                                            let k0 = spec_find_frags(t, d[i].ino)->Some_0;
                                            assert(t[k0].1[m] == es[0].inodes[j]);
                                        }
                                    }
                                } else {
                                    assert(es[k] == rest[k - 1]);
                                    assert((rest[k - 1].inodes[j].data as int) + rest[k
                                        - 1].inodes[j].csize <= n);
                                }
                            }
                        }
                    },
                }
            },
        }
    }
}

/// The enumeration of a whole image: detect the byte order, scan, then
/// list the entries.
pub open spec fn spec_list(data: Seq<u8>) -> Result<Seq<SpecEntry>, Jffs2Error> {
    if data.len() < 2 {
        Err(Jffs2Error::NotJffs2)
    } else {
        let initial = spec_u16_at(data, true, 0);
        if initial != JFFS2_MAGIC && initial != JFFS2_MAGIC_SWAPPED {
            Err(Jffs2Error::NotJffs2)
        } else {
            let le = initial == JFFS2_MAGIC;
            let sc = spec_scan_from(data, le, 0, Seq::empty(), Seq::empty());
            match sc.2 {
                Some(e) => Err(e),
                None => spec_entries_from(sc.0, sc.1, 0),
            }
        }
    }
}

/// One extracted entry: where it goes and, for a regular file, the bytes
/// to write there.
#[derive(Debug, Clone)]
pub struct ExtractedEntry {
    /// Normalized relative path of the entry.
    pub path: String,
    /// Whether the entry is a regular file rather than a directory.
    pub is_file: bool,
    /// Reassembled, decompressed contents; empty for a directory.
    pub data: Vec<u8>,
}

/// How one extracted entry corresponds to one enumerated entry of the
/// image: same path and kind; a directory carries no bytes; a regular
/// file carries as many bytes as its fragments (already in emission
/// order) emit, and exactly the reassembled contents whenever every
/// fragment's decoder output is determined by the image bytes.
pub open spec fn spec_extracted_matches(img: Seq<u8>, x: ExtractedEntry, e: SpecEntry) -> bool {
    &&& x.path@ == e.path
    &&& x.is_file == e.is_file
    &&& !e.is_file ==> x.data@.len() == 0
    &&& e.is_file ==> x.data@.len() == spec_total_emit_len(img, e.inodes)
    &&& (e.is_file && spec_all_det(img, e.inodes)) ==> x.data@ == spec_file_bytes(img, e.inodes)
}

/// Extracts the whole image to values: scans, resolves every dirent, and
/// reassembles every regular file. An image the enumeration rejects is
/// rejected with the same error; a fragment whose codec tag cannot be
/// dispatched makes extraction fail, never succeed; and when every
/// fragment of every file uses a codec decoded here and every decoder
/// accepts its input, extraction succeeds and the bytes are determined by
/// the image alone.
#[verifier::rlimit(100)]
pub fn extract_jffs2<C: ExternalCodec>(data: Vec<u8>, codec: &C) -> (r: Result<
    Vec<ExtractedEntry>,
    Jffs2Error,
>)
    requires
        data@.len() <= u32::MAX,
    ensures
        spec_list(data@) matches Err(e) ==> r == Err::<Vec<ExtractedEntry>, Jffs2Error>(e),
        r matches Ok(v) ==> (match spec_list(data@) {
            Ok(es) => v@.len() == es.len() && (forall|k: int|
                0 <= k < es.len() ==> spec_extracted_matches(data@, #[trigger] v@[k], es[k])),
            Err(_) => false,
        }),
        r matches Ok(v) ==> (match spec_list(data@) {
            Ok(es) => forall|k: int, j: int|
                #![trigger es[k].inodes[j]]
                0 <= k < es.len() && es[k].is_file && 0 <= j < es[k].inodes.len()
                    ==> spec_supported(es[k].inodes[j].compr),
            Err(_) => false,
        }),
        (match spec_list(data@) {
            Ok(es) => (forall|k: int|
                0 <= k < es.len() && (#[trigger] es[k]).is_file ==> spec_all_det(
                    data@,
                    es[k].inodes,
                )) ==> r is Ok,
            Err(_) => true,
        }),
{
    let ghost img = data@;
    let mut reader = match Jffs2Reader::new(data) {
        Err(e) => {
            return Err(e);
        },
        Ok(rd) => rd,
    };
    match reader.scan() {
        Err(e) => {
            return Err(e);
        },
        Ok(()) => {},
    }
    let ghost d = reader.dirents@;
    let ghost t = reader.inodes@;
    proof {
        assert(spec_frags_in_bounds(Seq::empty(), img.len() as int));
        lemma_scan_in_bounds(img, reader.little_endian, 0, Seq::empty(), Seq::empty());
        assert(spec_list(img) == spec_entries_from(d, t, 0));
        lemma_entries_frags_in_bounds(d, t, 0, img.len() as int);
    }
    let list = match reader.entries() {
        Err(e) => {
            return Err(e);
        },
        Ok(v) => v,
    };
    let ghost es = spec_entries_from(d, t, 0)->Ok_0;
    let mut out: Vec<ExtractedEntry> = Vec::new();
    let mut k: usize = 0;
    while k < list.len()
        invariant
            0 <= k <= es.len(),
            img == reader.buffer@,
            img == data@,
            entry_views(list@) == es,
            list@.len() == es.len(),
            spec_list(img) == Ok::<Seq<SpecEntry>, Jffs2Error>(es),
            forall|k2: int, j: int|
                #![trigger es[k2].inodes[j]]
                0 <= k2 < es.len() && 0 <= j < es[k2].inodes.len() ==> (es[k2].inodes[j].data
                    as int) + es[k2].inodes[j].csize <= img.len(),
            out@.len() == k,
            forall|j: int|
                0 <= j < k ==> spec_extracted_matches(img, #[trigger] out@[j], es[j]),
            forall|k2: int, j: int|
                #![trigger es[k2].inodes[j]]
                0 <= k2 < k && es[k2].is_file && 0 <= j < es[k2].inodes.len() ==> spec_supported(
                    es[k2].inodes[j].compr,
                ),
        decreases list@.len() - k,
    {
        let e = &list[k];
        proof {
            assert(entry_views(list@)[k as int] == list@[k as int]@);
            assert(list@[k as int]@ == es[k as int]);
        }
        if e.is_file {
            proof {
                assert forall|j: int|
                    0 <= j < e.inodes@.len() implies ((#[trigger] e.inodes@[j]).data as int)
                    + e.inodes@[j].csize <= img.len() by {
                    assert(es[k as int].inodes[j] == e.inodes@[j]);
                }
            }
            let bytes = match reassemble_sorted(codec, reader.buffer.as_slice(), &e.inodes) {
                Err(err) => {
                    proof {
                        let es2 = spec_list(data@)->Ok_0;
                        assert(es2 == es);
                        if forall|k2: int|
                            0 <= k2 < es2.len() && (#[trigger] es2[k2]).is_file ==> spec_all_det(
                                data@,
                                es2[k2].inodes,
                            ) {
                            assert(es2[k as int].is_file);
                            assert(spec_all_det(data@, es2[k as int].inodes));
                            assert(spec_all_det(img, e.inodes@));
                        }
                    }
                    return Err(err);
                },
                Ok(b) => b,
            };
            out.push(ExtractedEntry { path: e.path.clone(), is_file: true, data: bytes });
            proof {
                assert(spec_extracted_matches(img, out@[k as int], es[k as int]));
                assert forall|j: int|
                    0 <= j < es[k as int].inodes.len() implies spec_supported(
                    (#[trigger] es[k as int].inodes[j]).compr,
                ) by {
                    assert(es[k as int].inodes[j] == e.inodes@[j]);
                }
            }
        } else {
            out.push(ExtractedEntry { path: e.path.clone(), is_file: false, data: Vec::new() });
            proof {
                assert(spec_extracted_matches(img, out@[k as int], es[k as int]));
            }
        }
        k = k + 1;
    }
    Ok(out)
}

/// Lists all entries within the JFFS2 image held in `data`.
pub fn list_jffs2(data: Vec<u8>) -> (r: Result<Vec<Jffs2Entry>, Jffs2Error>)
    requires
        data@.len() <= u32::MAX,
    ensures
        (match spec_list(data@) {
            Ok(es) => r matches Ok(v) && entry_views(v@) == es,
            Err(e) => r matches Err(e2) && e2 == e,
        }),
{
    let mut reader = match Jffs2Reader::new(data) {
        Err(e) => {
            return Err(e);
        },
        Ok(rd) => rd,
    };
    match reader.scan() {
        Err(e) => {
            return Err(e);
        },
        Ok(()) => {},
    }
    reader.entries()
}

} // verus!
