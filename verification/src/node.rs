//! The two node payloads the scanner cares about: directory entries and
//! inode fragments, with their parsers.
//!
//! A dirent payload is a 28-byte fixed prefix followed by `nsize` name bytes;
//! an inode payload is a 56-byte fixed prefix followed by `csize` compressed
//! bytes, which stay in the image and are referenced by absolute offset.

use vstd::prelude::*;
use vstd::utf8::{valid_utf8, decode_utf8};
use crate::bytes::{spec_u16_at, spec_u32_at, until_nul, read_u32, cut_at_nul, string_from_utf8};
use crate::err::Jffs2Error;

verus! {

/// Fixed prefix length of a dirent payload.
pub const SIZE_OF_DIRENT: usize = 28;

/// Fixed prefix length of an inode payload.
pub const SIZE_OF_INODE: usize = 56;

/// One fragment of a regular file: a slice of the file's contents at a
/// logical offset, stored compressed in the image.
#[derive(Debug, Clone, Copy)]
pub struct Jffs2Inode {
    /// Version counter; among fragments at one offset the highest wins.
    pub version: u32,
    /// Total resultant size of the inode, as recorded on disk.
    pub total_size: u32,
    /// Last modification time, as recorded on disk.
    pub mtime: u32,
    /// Logical offset within the file where this fragment's bytes begin.
    pub offset: u32,
    /// Length of the compressed bytes in the image.
    pub csize: u32,
    /// Length of the fragment after decompression.
    pub dsize: u32,
    /// Codec tag naming the compression algorithm of this fragment.
    pub compr: u8,
    /// Absolute image offset where the compressed bytes begin.
    pub data: u32,
}

impl Jffs2Inode {
    /// Version number of this fragment.
    pub fn version(&self) -> (r: u32)
        ensures
            r == self.version,
    {
        self.version
    }

    /// Logical offset of this fragment within the file.
    pub fn offset(&self) -> (r: u32)
        ensures
            r == self.offset,
    {
        self.offset
    }

    /// Size after compression.
    pub fn compressed_size(&self) -> (r: u32)
        ensures
            r == self.csize,
    {
        self.csize
    }

    /// Original size.
    pub fn decompressed_size(&self) -> (r: u32)
        ensures
            r == self.dsize,
    {
        self.dsize
    }

    /// Compression method.
    pub fn compression_method(&self) -> (r: u8)
        ensures
            r == self.compr,
    {
        self.compr
    }

    /// Data offset in the image.
    pub fn data_offset(&self) -> (r: u32)
        ensures
            r == self.data,
    {
        self.data
    }
}

/// Mathematical model of a directory entry.
pub struct SpecDirent {
    pub ino: u32,
    pub pino: u32,
    pub version: u32,
    pub mctime: u32,
    pub ntype: u8,
    pub name: Seq<char>,
}

/// One directory entry: a name within a parent directory, bound to an inode.
#[derive(Debug, Clone)]
pub struct Jffs2Dirent {
    /// Inode number the entry names.
    pub ino: u32,
    /// Inode number of the parent directory; `1` is the synthetic root.
    pub pino: u32,
    /// Version counter; for one inode the highest version wins.
    pub version: u32,
    /// Modification time, as recorded on disk.
    pub mctime: u32,
    /// Entry type: `4` for a directory, `8` for a regular file.
    pub ntype: u8,
    /// Entry name, truncated at the first NUL byte on disk.
    pub fname: String,
}

impl View for Jffs2Dirent {
    type V = SpecDirent;

    open spec fn view(&self) -> SpecDirent {
        SpecDirent {
            ino: self.ino,
            pino: self.pino,
            version: self.version,
            mctime: self.mctime,
            ntype: self.ntype,
            name: self.fname@,
        }
    }
}

/// The name bytes of a dirent payload: `nsize` bytes from offset 28,
/// truncated at the first NUL.
pub open spec fn spec_name_bytes(p: Seq<u8>, nsize: u8) -> Seq<u8> {
    until_nul(p.subrange(SIZE_OF_DIRENT as int, SIZE_OF_DIRENT + nsize))
}

/// What parsing a dirent payload yields: `Ok(None)` when the payload is
/// shorter than the fixed prefix (the node is skipped), an error when the
/// name overruns the payload or is not valid UTF-8, and the record otherwise.
pub open spec fn spec_parse_dirent(p: Seq<u8>, le: bool) -> Result<Option<SpecDirent>, Jffs2Error> {
    if p.len() < SIZE_OF_DIRENT {
        Ok(None)
    } else if SIZE_OF_DIRENT + p[16] > p.len() {
        Err(Jffs2Error::Truncated)
    } else if !valid_utf8(spec_name_bytes(p, p[16])) {
        Err(Jffs2Error::BadName)
    } else {
        Ok(Some(SpecDirent {
            ino: spec_u32_at(p, le, 8) as u32,
            pino: spec_u32_at(p, le, 0) as u32,
            version: spec_u32_at(p, le, 4) as u32,
            mctime: spec_u32_at(p, le, 12) as u32,
            ntype: p[17],
            name: decode_utf8(spec_name_bytes(p, p[16])),
        }))
    }
}

/// Parses one dirent payload under the image byte order.
pub fn parse_dirent(payload: &[u8], little_endian: bool) -> (r: Result<
    Option<Jffs2Dirent>,
    Jffs2Error,
>)
    ensures
        (match spec_parse_dirent(payload@, little_endian) {
            Ok(None) => r matches Ok(o) && o is None,
            Ok(Some(sd)) => r matches Ok(o) && o matches Some(d) && d@ == sd,
            Err(e) => r matches Err(e2) && e2 == e,
        }),
{
    if payload.len() < SIZE_OF_DIRENT {
        return Ok(None);
    }
    let nsize = payload[16];
    let ntype = payload[17];
    if payload.len() - SIZE_OF_DIRENT < nsize as usize {
        return Err(Jffs2Error::Truncated);
    }
    let pino = read_u32(payload, little_endian, 0).unwrap();
    let version = read_u32(payload, little_endian, 4).unwrap();
    let ino = read_u32(payload, little_endian, 8).unwrap();
    let mctime = read_u32(payload, little_endian, 12).unwrap();
    let mut name_bytes: Vec<u8> = Vec::new();
    let mut i: usize = SIZE_OF_DIRENT;
    while i < SIZE_OF_DIRENT + nsize as usize
        invariant
            SIZE_OF_DIRENT <= i <= SIZE_OF_DIRENT + nsize,
            SIZE_OF_DIRENT + nsize <= payload@.len(),
            name_bytes@ == payload@.subrange(SIZE_OF_DIRENT as int, i as int),
        decreases SIZE_OF_DIRENT + nsize as usize - i,
    {
        name_bytes.push(payload[i]);
        i = i + 1;
        proof {
            assert(name_bytes@ =~= payload@.subrange(SIZE_OF_DIRENT as int, i as int));
        }
    }
    cut_at_nul(&mut name_bytes);
    match string_from_utf8(name_bytes) {
        None => Err(Jffs2Error::BadName),
        Some(fname) => Ok(
            Some(Jffs2Dirent { ino, pino, version, mctime, ntype, fname }),
        ),
    }
}

/// What parsing an inode payload yields: `Ok(None)` when the payload is
/// shorter than the fixed prefix (the node is skipped), an error when the
/// compressed bytes overrun the payload, and otherwise the inode number
/// paired with the fragment record. `data_off` is the absolute image offset
/// where the compressed bytes begin.
pub open spec fn spec_parse_inode(p: Seq<u8>, le: bool, data_off: u32) -> Result<
    Option<(u32, Jffs2Inode)>,
    Jffs2Error,
> {
    if p.len() < SIZE_OF_INODE {
        Ok(None)
    } else if SIZE_OF_INODE + spec_u32_at(p, le, 36) > p.len() {
        Err(Jffs2Error::Truncated)
    } else {
        Ok(Some((
            spec_u32_at(p, le, 0) as u32,
            Jffs2Inode {
                version: spec_u32_at(p, le, 4) as u32,
                total_size: spec_u32_at(p, le, 16) as u32,
                mtime: spec_u32_at(p, le, 24) as u32,
                offset: spec_u32_at(p, le, 32) as u32,
                csize: spec_u32_at(p, le, 36) as u32,
                dsize: spec_u32_at(p, le, 40) as u32,
                compr: p[44],
                data: data_off,
            },
        )))
    }
}

/// Parses one inode payload under the image byte order.
pub fn parse_inode(payload: &[u8], little_endian: bool, data_off: u32) -> (r: Result<
    Option<(u32, Jffs2Inode)>,
    Jffs2Error,
>)
    ensures
        (match spec_parse_inode(payload@, little_endian, data_off) {
            Ok(None) => r matches Ok(o) && o is None,
            Ok(Some(p)) => r matches Ok(o) && o matches Some(q) && q == p,
            Err(e) => r matches Err(e2) && e2 == e,
        }),
{
    if payload.len() < SIZE_OF_INODE {
        return Ok(None);
    }
    let ino = read_u32(payload, little_endian, 0).unwrap();
    let version = read_u32(payload, little_endian, 4).unwrap();
    let total_size = read_u32(payload, little_endian, 16).unwrap();
    let mtime = read_u32(payload, little_endian, 24).unwrap();
    let offset = read_u32(payload, little_endian, 32).unwrap();
    let csize = read_u32(payload, little_endian, 36).unwrap();
    let dsize = read_u32(payload, little_endian, 40).unwrap();
    let compr = payload[44];
    if csize as usize > payload.len() - SIZE_OF_INODE {
        return Err(Jffs2Error::Truncated);
    }
    Ok(Some((
        ino,
        Jffs2Inode { version, total_size, mtime, offset, csize, dsize, compr, data: data_off },
    )))
}

} // verus!
