//! The node scanner: a linear walk over the image that detects the byte
//! order, finds node boundaries by magic and length, and fills the dirent
//! and inode tables.

use vstd::prelude::*;
use vstd::slice::slice_subrange;
use crate::bytes::{spec_u16_at, spec_u32_at, read_u16, read_u32};
use crate::err::Jffs2Error;
use crate::node::{spec_parse_dirent, spec_parse_inode, parse_dirent, parse_inode, SpecDirent,
    Jffs2Inode};
use crate::table::{DirentTable, InodeTable, spec_dirent_insert, spec_inode_insert};

verus! {

/// Node type tag of a directory-entry node.
pub const JFFS2_NODETYPE_DIRENT: u16 = 0xE001;

/// Node type tag of an inode (file-contents) node.
pub const JFFS2_NODETYPE_INODE: u16 = 0xE002;

/// JFFS2 magic in its little-endian reading.
pub const JFFS2_MAGIC: u16 = 0x1985;

/// JFFS2 magic as the first two bytes read little-endian on a big-endian
/// image.
pub const JFFS2_MAGIC_SWAPPED: u16 = 0x8519;

/// `x` rounded up to the next multiple of four: a node occupies
/// `pad4(totlen)` bytes including its header.
pub open spec fn pad4(x: int) -> int {
    if x % 4 == 0 {
        x
    } else {
        x + (4 - x % 4)
    }
}

/// Rounds a node length up to the next multiple of four.
pub fn pad(x: usize) -> (r: usize)
    requires
        x + 3 <= usize::MAX,
    ensures
        r == pad4(x as int),
{
    if x % 4 != 0 {
        x + (4 - (x % 4))
    } else {
        x
    }
}

/// The payload of a node that starts at `idx` and has total length
/// `totlen`: the bytes after the 12-byte header, or nothing when the stated
/// length does not even cover the header.
pub open spec fn spec_payload(data: Seq<u8>, idx: int, totlen: int) -> Seq<u8> {
    if totlen >= 12 {
        data.subrange(idx + 12, idx + totlen)
    } else {
        Seq::empty()
    }
}

/// The tables that scanning from cursor `idx` onward leaves behind, given
/// the tables filled so far. The scan reads the node header at `idx`,
/// resynchronizes by four bytes on a magic mismatch, stops cleanly on a zero
/// or overrunning length, dispatches dirent and inode payloads, and advances
/// by the padded node length. The outcome carries the tables in every case:
/// on a parse error they hold what was recorded up to the failing node.
#[verifier::opaque]
pub open spec fn spec_scan_from(
    data: Seq<u8>,
    le: bool,
    idx: int,
    d: Seq<SpecDirent>,
    t: Seq<(u32, Seq<Jffs2Inode>)>,
) -> (Seq<SpecDirent>, Seq<(u32, Seq<Jffs2Inode>)>, Option<Jffs2Error>)
    decreases data.len() - idx,
    when 0 <= idx
{
    if idx + 12 > data.len() {
        (d, t, None)
    } else if spec_u16_at(data, le, idx) != JFFS2_MAGIC {
        spec_scan_from(data, le, idx + 4, d, t)
    } else {
        let nodetype = spec_u16_at(data, le, idx + 2);
        let totlen = spec_u32_at(data, le, idx + 4);
        if totlen == 0 || totlen > data.len() - (idx + 12) {
            (d, t, None)
        } else {
            let payload = spec_payload(data, idx, totlen);
            let next = idx + pad4(totlen);
            if nodetype == JFFS2_NODETYPE_DIRENT {
                match spec_parse_dirent(payload, le) {
                    Err(e) => (d, t, Some(e)),
                    Ok(None) => spec_scan_from(data, le, next, d, t),
                    Ok(Some(rec)) => spec_scan_from(data, le, next, spec_dirent_insert(d, rec), t),
                }
            } else if nodetype == JFFS2_NODETYPE_INODE {
                match spec_parse_inode(payload, le, (idx + 12 + 56) as u32) {
                    Err(e) => (d, t, Some(e)),
                    Ok(None) => spec_scan_from(data, le, next, d, t),
                    Ok(Some((ino, f))) => spec_scan_from(
                        data,
                        le,
                        next,
                        d,
                        spec_inode_insert(t, ino, f),
                    ),
                }
            } else {
                spec_scan_from(data, le, next, d, t)
            }
        }
    }
}

/// The error slot a scan outcome corresponds to.
pub open spec fn scan_err(r: Result<(), Jffs2Error>) -> Option<Jffs2Error> {
    match r {
        Ok(_) => None::<Jffs2Error>,
        Err(e) => Some(e),
    }
}

/// Scanning is deterministic: the tables a scan leaves behind are a
/// mathematical function of the image bytes and the byte order alone, so
/// scanning equal images from equal starting tables yields equal tables.
pub proof fn lemma_scan_deterministic(
    data1: Seq<u8>,
    data2: Seq<u8>,
    le: bool,
    d: Seq<SpecDirent>,
    t: Seq<(u32, Seq<Jffs2Inode>)>,
)
    requires
        data1 == data2,
    ensures
        spec_scan_from(data1, le, 0, d, t) == spec_scan_from(data2, le, 0, d, t),
{
}

/// Reader over one JFFS2 image: the bytes, the detected byte order, and the
/// two tables a scan fills.
#[derive(Debug)]
pub struct Jffs2Reader {
    /// The whole image.
    pub buffer: Vec<u8>,
    /// Whether the image is little-endian, detected from its first two
    /// bytes.
    pub little_endian: bool,
    /// Most recent directory entry per inode number.
    pub dirents: DirentTable,
    /// Fragment lists per inode number.
    pub inodes: InodeTable,
}

impl Jffs2Reader {
    /// The reader addresses image bytes with 32-bit offsets, as the on-disk
    /// format does, so the image must not be longer than one can address.
    pub open spec fn wf(&self) -> bool {
        self.buffer@.len() <= u32::MAX
    }

    /// Opens an image held in memory: detects the byte order from the first
    /// two bytes and starts with empty tables. Rejects as `NotJffs2` an
    /// image of fewer than two bytes or one whose first two bytes match
    /// neither byte order of the magic.
    pub fn new(buffer: Vec<u8>) -> (r: Result<Jffs2Reader, Jffs2Error>)
        requires
            buffer@.len() <= u32::MAX,
        ensures
            (r is Ok <==> (buffer@.len() >= 2 && (spec_u16_at(buffer@, true, 0) == JFFS2_MAGIC
                || spec_u16_at(buffer@, true, 0) == JFFS2_MAGIC_SWAPPED))),
            r matches Ok(rd) ==> rd.buffer@ == buffer@ && rd.little_endian == (spec_u16_at(
                buffer@,
                true,
                0,
            ) == JFFS2_MAGIC) && rd.dirents@ == Seq::<SpecDirent>::empty() && rd.inodes@ == Seq::<
                (u32, Seq<Jffs2Inode>),
            >::empty() && rd.wf(),
            r matches Err(e) ==> e == Jffs2Error::NotJffs2,
    {
        if buffer.len() < 2 {
            return Err(Jffs2Error::NotJffs2);
        }
        let initial = read_u16(buffer.as_slice(), true, 0).unwrap();
        if initial != JFFS2_MAGIC && initial != JFFS2_MAGIC_SWAPPED {
            return Err(Jffs2Error::NotJffs2);
        }
        let little_endian = initial == JFFS2_MAGIC;
        Ok(Jffs2Reader {
            buffer,
            little_endian,
            dirents: DirentTable::new(),
            inodes: InodeTable::new(),
        })
    }

    /// Walks the whole image once and fills the tables. The tables left
    /// behind, and the error if any, are the mathematical scan of the
    /// image bytes from cursor zero — on the error path too, where the
    /// tables hold what was recorded before the failing node. In
    /// particular the outcome depends on nothing but the bytes and the
    /// byte order.
    #[verifier::rlimit(60)]
    pub fn scan(&mut self) -> (r: Result<(), Jffs2Error>)
        requires
            old(self).wf(),
        ensures
            final(self).buffer@ == old(self).buffer@,
            final(self).little_endian == old(self).little_endian,
            final(self).wf(),
            spec_scan_from(
                old(self).buffer@,
                old(self).little_endian,
                0,
                old(self).dirents@,
                old(self).inodes@,
            ) == (final(self).dirents@, final(self).inodes@, scan_err(r)),
    {
        let ghost data = self.buffer@;
        let ghost le = self.little_endian;
        let ghost d0 = self.dirents@;
        let ghost t0 = self.inodes@;
        let mut idx: usize = 0;
        loop
            invariant
                data == old(self).buffer@,
                le == old(self).little_endian,
                d0 == old(self).dirents@,
                t0 == old(self).inodes@,
                self.buffer@ == data,
                self.little_endian == le,
                self.buffer@.len() <= u32::MAX,
                idx <= data.len(),
                spec_scan_from(data, le, 0, d0, t0) == spec_scan_from(
                    data,
                    le,
                    idx as int,
                    self.dirents@,
                    self.inodes@,
                ),
            ensures
                self.buffer@ == data,
                self.little_endian == le,
                spec_scan_from(data, le, 0, d0, t0) == (
                    self.dirents@,
                    self.inodes@,
                    None::<Jffs2Error>,
                ),
            decreases data.len() - idx,
        {
            if self.buffer.len() < 12 || idx > self.buffer.len() - 12 {
                proof {
                    reveal_with_fuel(spec_scan_from, 1);
                    assert(spec_scan_from(data, le, idx as int, self.dirents@, self.inodes@)
                        == (self.dirents@, self.inodes@, None::<Jffs2Error>));
                }
                break;
            }
            let magic = read_u16(self.buffer.as_slice(), self.little_endian, idx).unwrap();
            if magic != JFFS2_MAGIC {
                proof {
                    reveal_with_fuel(spec_scan_from, 1);
                    assert(spec_scan_from(data, le, idx as int, self.dirents@, self.inodes@)
                        == spec_scan_from(data, le, idx as int + 4, self.dirents@, self.inodes@));
                }
                idx = idx + 4;
                continue;
            }
            let nodetype = read_u16(self.buffer.as_slice(), self.little_endian, idx + 2).unwrap();
            let totlen = read_u32(self.buffer.as_slice(), self.little_endian, idx + 4).unwrap();
            if totlen == 0 || totlen as usize > self.buffer.len() - (idx + 12) {
                proof {
                    reveal_with_fuel(spec_scan_from, 1);
                    assert(spec_scan_from(data, le, idx as int, self.dirents@, self.inodes@)
                        == (self.dirents@, self.inodes@, None::<Jffs2Error>));
                }
                break;
            }
            let ghost d_before = self.dirents@;
            let ghost t_before = self.inodes@;
            if nodetype == JFFS2_NODETYPE_DIRENT {
                if totlen as usize >= 12 {
                    let payload = slice_subrange(
                        self.buffer.as_slice(),
                        idx + 12,
                        idx + totlen as usize,
                    );
                    assert(payload@ == spec_payload(data, idx as int, totlen as int));
                    match parse_dirent(payload, self.little_endian) {
                        Err(e) => {
                            proof {
                                reveal_with_fuel(spec_scan_from, 1);
                                assert(spec_scan_from(data, le, idx as int, d_before, t_before)
                                    == (d_before, t_before, Some(e)));
                            }
                            return Err(e);
                        },
                        Ok(None) => {},
                        Ok(Some(rec)) => {
                            self.dirents.insert(rec);
                        },
                    }
                } else {
                    assert(spec_parse_dirent(spec_payload(data, idx as int, totlen as int), le)
                        == Ok::<Option<SpecDirent>, Jffs2Error>(None));
                }
            } else if nodetype == JFFS2_NODETYPE_INODE {
                if totlen as usize >= 68 {
                    let payload = slice_subrange(
                        self.buffer.as_slice(),
                        idx + 12,
                        idx + totlen as usize,
                    );
                    assert(payload@ == spec_payload(data, idx as int, totlen as int));
                    let data_off: u32 = (idx as u32) + 68;
                    match parse_inode(payload, self.little_endian, data_off) {
                        Err(e) => {
                            proof {
                                reveal_with_fuel(spec_scan_from, 1);
                                assert(spec_scan_from(data, le, idx as int, d_before, t_before)
                                    == (d_before, t_before, Some(e)));
                            }
                            return Err(e);
                        },
                        Ok(None) => {},
                        Ok(Some((ino, f))) => {
                            self.inodes.insert(ino, f);
                        },
                    }
                } else {
                    assert(spec_parse_inode(
                        spec_payload(data, idx as int, totlen as int),
                        le,
                        (idx + 12 + 56) as u32,
                    ) == Ok::<Option<(u32, Jffs2Inode)>, Jffs2Error>(None));
                }
            }
            let advance = pad(totlen as usize);
            proof {
                reveal_with_fuel(spec_scan_from, 1);
                assert(pad4(totlen as int) <= totlen as int + 3);
                assert(spec_scan_from(data, le, idx as int, d_before, t_before)
                    == spec_scan_from(
                    data,
                    le,
                    idx as int + pad4(totlen as int),
                    self.dirents@,
                    self.inodes@,
                ));
            }
            idx = idx + advance;
        }
        Ok(())
    }
}

} // verus!
