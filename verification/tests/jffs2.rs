//! End-to-end tests over hand-built JFFS2 images.

use std::io::Write;

use jffs2_reader::api::{extract_jffs2, list_jffs2, ExtractedEntry};
use jffs2_reader::codec::NoExternalCodecs;
use jffs2_reader::err::Jffs2Error;
use jffs2_reader::path::JffsPathFixer;

fn push_u16(v: &mut Vec<u8>, le: bool, x: u16) {
    if le {
        v.extend(x.to_le_bytes());
    } else {
        v.extend(x.to_be_bytes());
    }
}

fn push_u32(v: &mut Vec<u8>, le: bool, x: u32) {
    if le {
        v.extend(x.to_le_bytes());
    } else {
        v.extend(x.to_be_bytes());
    }
}

fn node_header(v: &mut Vec<u8>, le: bool, nodetype: u16, totlen: u32) {
    push_u16(v, le, 0x1985);
    push_u16(v, le, nodetype);
    push_u32(v, le, totlen);
    push_u32(v, le, 0); // header CRC, ignored
}

fn pad4(v: &mut Vec<u8>) {
    while v.len() % 4 != 0 {
        v.push(0);
    }
}

fn dirent_node(v: &mut Vec<u8>, le: bool, pino: u32, version: u32, ino: u32, ntype: u8, name: &[u8]) {
    let totlen = 12 + 28 + name.len() as u32;
    node_header(v, le, 0xE001, totlen);
    push_u32(v, le, pino);
    push_u32(v, le, version);
    push_u32(v, le, ino);
    push_u32(v, le, 0); // mctime
    v.push(name.len() as u8);
    v.push(ntype);
    v.push(0);
    v.push(0); // unused
    push_u32(v, le, 0); // node CRC
    push_u32(v, le, 0); // name CRC
    v.extend(name);
    pad4(v);
}

#[allow(clippy::too_many_arguments)]
fn inode_node(
    v: &mut Vec<u8>,
    le: bool,
    ino: u32,
    version: u32,
    isize: u32,
    offset: u32,
    dsize: u32,
    compr: u8,
    data: &[u8],
) {
    let totlen = 12 + 56 + data.len() as u32;
    node_header(v, le, 0xE002, totlen);
    push_u32(v, le, ino);
    push_u32(v, le, version);
    push_u32(v, le, 0o100644); // mode
    push_u16(v, le, 0); // uid
    push_u16(v, le, 0); // gid
    push_u32(v, le, isize);
    push_u32(v, le, 0); // atime
    push_u32(v, le, 0); // mtime
    push_u32(v, le, 0); // ctime
    push_u32(v, le, offset);
    push_u32(v, le, data.len() as u32); // csize
    push_u32(v, le, dsize);
    v.push(compr);
    v.push(0); // usercompr
    push_u16(v, le, 0); // flags
    push_u32(v, le, 0); // data CRC
    push_u32(v, le, 0); // node CRC
    v.extend(data);
    pad4(v);
}

/// Appends the trailing padding a real flash image has after its last
/// node; the scanner stops a node whose stated length runs into the last
/// twelve bytes.
fn seal(mut image: Vec<u8>) -> Vec<u8> {
    image.extend([0u8; 12]);
    image
}

fn extract(image: Vec<u8>) -> Result<Vec<ExtractedEntry>, Jffs2Error> {
    extract_jffs2(seal(image), &NoExternalCodecs)
}

fn list(image: Vec<u8>) -> Result<Vec<jffs2_reader::Jffs2Entry>, Jffs2Error> {
    list_jffs2(seal(image))
}

#[test]
fn empty_image_is_not_jffs2() {
    assert_eq!(list_jffs2(Vec::new()).unwrap_err(), Jffs2Error::NotJffs2);
    assert_eq!(list_jffs2(vec![0x85]).unwrap_err(), Jffs2Error::NotJffs2);
}

#[test]
fn wrong_magic_is_not_jffs2() {
    assert_eq!(list_jffs2(vec![0x00, 0x00, 0x00, 0x00]).unwrap_err(), Jffs2Error::NotJffs2);
}

#[test]
fn magic_but_no_nodes_gives_empty_entries() {
    let mut image = vec![0x85, 0x19];
    image.extend([0u8; 10]);
    assert_eq!(image.len(), 12);
    let entries = list_jffs2(image).unwrap();
    assert!(entries.is_empty());
}

#[test]
fn zero_totlen_stops_scan_and_keeps_prior_entries() {
    let le = true;
    let mut image = Vec::new();
    dirent_node(&mut image, le, 1, 1, 2, 4, b"kept");
    node_header(&mut image, le, 0xE001, 0); // totlen == 0: scan stops here
    dirent_node(&mut image, le, 1, 1, 3, 4, b"lost");
    let entries = list(image).unwrap();
    assert_eq!(entries.len(), 1);
    assert_eq!(entries[0].path(), "kept");
}

#[test]
fn empty_name_is_dropped_by_normalization() {
    // A dirent with nsize == 0 resolves to an empty component, which the
    // lexical normalization drops; the path is then empty.
    let le = true;
    let mut image = Vec::new();
    dirent_node(&mut image, le, 1, 1, 2, 4, b"");
    let entries = list(image).unwrap();
    assert_eq!(entries.len(), 1);
    assert_eq!(entries[0].path(), "");
    assert!(!entries[0].is_file());
}

#[test]
fn extracts_directory_and_file_with_none_codec() {
    let le = true;
    let mut image = Vec::new();
    dirent_node(&mut image, le, 1, 1, 2, 4, b"a");
    dirent_node(&mut image, le, 2, 1, 3, 8, b"b");
    inode_node(&mut image, le, 3, 1, 5, 0, 5, 0x00, b"hello");
    let out = extract(image).unwrap();
    assert_eq!(out.len(), 2);
    assert_eq!(out[0].path, "a");
    assert!(!out[0].is_file);
    assert_eq!(out[1].path, "a/b");
    assert!(out[1].is_file);
    assert_eq!(out[1].data, b"hello");
}

#[test]
fn higher_version_wins_regardless_of_order() {
    let le = true;
    let mut image = Vec::new();
    dirent_node(&mut image, le, 1, 2, 2, 4, b"new");
    dirent_node(&mut image, le, 1, 1, 2, 4, b"old");
    let entries = list(image).unwrap();
    assert_eq!(entries.len(), 1);
    assert_eq!(entries[0].path(), "new");

    let mut image2 = Vec::new();
    dirent_node(&mut image2, le, 1, 1, 2, 4, b"old");
    dirent_node(&mut image2, le, 1, 2, 2, 4, b"new");
    let entries2 = list(image2).unwrap();
    assert_eq!(entries2.len(), 1);
    assert_eq!(entries2[0].path(), "new");
}

#[test]
fn zero_and_none_fragments_reassemble_in_offset_order() {
    let le = true;
    let mut image = Vec::new();
    dirent_node(&mut image, le, 1, 1, 2, 8, b"f");
    // Deliberately record the later fragment first: ordering is by offset.
    inode_node(&mut image, le, 2, 1, 7, 4, 3, 0x00, b"abc");
    inode_node(&mut image, le, 2, 1, 7, 0, 4, 0x01, b"");
    let out = extract(image).unwrap();
    assert_eq!(out.len(), 1);
    assert_eq!(out[0].data, b"\0\0\0\0abc");
}

#[test]
fn rtime_fragment_decodes_runs() {
    let le = true;
    let mut image = Vec::new();
    dirent_node(&mut image, le, 1, 1, 2, 8, b"f");
    // 'a' followed by a run of three more copies of it.
    inode_node(&mut image, le, 2, 1, 4, 0, 4, 0x02, &[b'a', 3]);
    let out = extract(image).unwrap();
    assert_eq!(out[0].data, b"aaaa");
}

#[test]
fn rtime_truncated_input_is_codec_failure() {
    let le = true;
    let mut image = Vec::new();
    dirent_node(&mut image, le, 1, 1, 2, 8, b"f");
    inode_node(&mut image, le, 2, 1, 4, 0, 4, 0x02, &[b'a']);
    assert_eq!(extract(image).unwrap_err(), Jffs2Error::CodecFailure);
}

#[test]
fn zlib_fragment_round_trips() {
    let payload = b"compressed contents, compressed contents, and more of the same";
    let mut encoder = flate2::write::ZlibEncoder::new(Vec::new(), flate2::Compression::default());
    encoder.write_all(payload).unwrap();
    let compressed = encoder.finish().unwrap();
    assert_ne!(&compressed, payload);

    let le = true;
    let mut image = Vec::new();
    dirent_node(&mut image, le, 1, 1, 2, 8, b"z");
    inode_node(&mut image, le, 2, 1, payload.len() as u32, 0, payload.len() as u32, 0x06, &compressed);
    let out = extract(image).unwrap();
    assert_eq!(out[0].data, payload);
}

#[test]
fn zlib_garbage_is_codec_failure() {
    let le = true;
    let mut image = Vec::new();
    dirent_node(&mut image, le, 1, 1, 2, 8, b"z");
    inode_node(&mut image, le, 2, 1, 4, 0, 4, 0x06, &[0xAA, 0xBB, 0xCC]);
    assert_eq!(extract(image).unwrap_err(), Jffs2Error::CodecFailure);
}

/// A range encoder producing an LZMA1 literal-only stream for the
/// parameter set the reader reconstructs (`lc = lp = pb = 0`), so the
/// stream decodes under the reader's rebuilt header.
struct LiteralLzma {
    out: Vec<u8>,
    range: u32,
    low: u64,
    cache: u8,
    cachesz: u32,
}

impl LiteralLzma {
    fn new() -> Self {
        LiteralLzma { out: Vec::new(), range: 0xFFFF_FFFF, low: 0, cache: 0, cachesz: 1 }
    }

    fn write_low(&mut self) {
        if self.low < 0xFF00_0000 || self.low > 0xFFFF_FFFF {
            let mut tmp = self.cache;
            loop {
                self.out.push(tmp.wrapping_add((self.low >> 32) as u8));
                tmp = 0xFF;
                self.cachesz -= 1;
                if self.cachesz == 0 {
                    break;
                }
            }
            self.cache = (self.low >> 24) as u8;
        }
        self.cachesz += 1;
        self.low = (self.low << 8) & 0xFFFF_FFFF;
    }

    fn encode_bit(&mut self, prob: &mut u16, bit: bool) {
        let bound: u32 = (self.range >> 11) * (*prob as u32);
        if bit {
            *prob -= *prob >> 5;
            self.low += bound as u64;
            self.range -= bound;
        } else {
            *prob += (0x800_u16 - *prob) >> 5;
            self.range = bound;
        }
        while self.range < 0x0100_0000 {
            self.range <<= 8;
            self.write_low();
        }
    }

    fn compress(data: &[u8]) -> Vec<u8> {
        let mut enc = LiteralLzma::new();
        let mut is_match: u16 = 0x400;
        let mut literal_probs = vec![0x400u16; 0x300];
        for &byte in data {
            enc.encode_bit(&mut is_match, false);
            let mut result: usize = 1;
            for i in 0..8 {
                let bit = ((byte >> (7 - i)) & 1) != 0;
                let mut p = literal_probs[result];
                enc.encode_bit(&mut p, bit);
                literal_probs[result] = p;
                result = (result << 1) ^ (bit as usize);
            }
        }
        for _ in 0..5 {
            enc.write_low();
        }
        enc.out
    }
}

#[test]
fn lzma_fragment_round_trips_with_rebuilt_header() {
    let payload = b"lzma encoded body of a file";
    let compressed = LiteralLzma::compress(payload);

    // The reference decode of the same bytes under the rebuilt header.
    let mut full = Vec::new();
    full.push(0u8);
    full.extend(0x2000u32.to_le_bytes());
    full.extend((payload.len() as u64).to_le_bytes());
    full.extend(&compressed);
    let mut reference = Vec::new();
    lzma_rs::lzma_decompress(&mut std::io::Cursor::new(&full), &mut reference).unwrap();
    assert_eq!(reference, payload);

    let le = true;
    let mut image = Vec::new();
    dirent_node(&mut image, le, 1, 1, 2, 8, b"l");
    inode_node(&mut image, le, 2, 1, payload.len() as u32, 0, payload.len() as u32, 0x08, &compressed);
    let out = extract(image).unwrap();
    assert_eq!(out[0].data, reference);
}

#[test]
fn missing_parent_is_unresolved() {
    let le = true;
    let mut image = Vec::new();
    dirent_node(&mut image, le, 99, 1, 2, 4, b"orphan");
    assert_eq!(list(image).unwrap_err(), Jffs2Error::Unresolved);
}

#[test]
fn rubinmips_is_unsupported() {
    let le = true;
    let mut image = Vec::new();
    dirent_node(&mut image, le, 1, 1, 2, 8, b"f");
    inode_node(&mut image, le, 2, 1, 4, 0, 4, 0x03, &[1, 2, 3, 4]);
    assert_eq!(extract(image).unwrap_err(), Jffs2Error::Unsupported);
}

#[test]
fn copy_codec_is_unsupported() {
    let le = true;
    let mut image = Vec::new();
    dirent_node(&mut image, le, 1, 1, 2, 8, b"f");
    inode_node(&mut image, le, 2, 1, 4, 0, 4, 0x04, &[1, 2, 3, 4]);
    assert_eq!(extract(image).unwrap_err(), Jffs2Error::Unsupported);
}

#[test]
fn lzo_without_external_codec_is_codec_failure() {
    let le = true;
    let mut image = Vec::new();
    dirent_node(&mut image, le, 1, 1, 2, 8, b"f");
    inode_node(&mut image, le, 2, 1, 4, 0, 4, 0x07, &[1, 2, 3, 4]);
    assert_eq!(extract(image).unwrap_err(), Jffs2Error::CodecFailure);
}

fn tree_image(le: bool) -> Vec<u8> {
    let mut image = Vec::new();
    dirent_node(&mut image, le, 1, 1, 2, 4, b"dir");
    dirent_node(&mut image, le, 2, 1, 3, 8, b"file");
    inode_node(&mut image, le, 3, 1, 8, 0, 8, 0x00, b"contents");
    image
}

#[test]
fn big_endian_image_extracts_to_the_same_tree() {
    let out_le = extract(tree_image(true)).unwrap();
    let be = tree_image(false);
    // The magic of a big-endian image reads 0x8519 when read little-endian.
    assert_eq!(&be[0..2], &[0x19, 0x85]);
    let out_be = extract(be).unwrap();
    assert_eq!(out_le.len(), out_be.len());
    for (a, b) in out_le.iter().zip(out_be.iter()) {
        assert_eq!(a.path, b.path);
        assert_eq!(a.is_file, b.is_file);
        assert_eq!(a.data, b.data);
    }
}

#[test]
fn scanning_twice_yields_identical_results() {
    let img = tree_image(true);
    let first = list(img.clone()).unwrap();
    let second = list(img).unwrap();
    assert_eq!(first.len(), second.len());
    for (a, b) in first.iter().zip(second.iter()) {
        assert_eq!(a.path(), b.path());
        assert_eq!(a.is_file(), b.is_file());
        assert_eq!(a.size(), b.size());
    }
}

#[test]
fn dirent_name_overrunning_payload_is_truncated() {
    let le = true;
    let mut image = Vec::new();
    // A dirent whose nsize claims more bytes than the payload holds.
    let totlen = 12 + 28;
    node_header(&mut image, le, 0xE001, totlen);
    push_u32(&mut image, le, 1); // pino
    push_u32(&mut image, le, 1); // version
    push_u32(&mut image, le, 2); // ino
    push_u32(&mut image, le, 0); // mctime
    image.push(10); // nsize, but no name bytes follow
    image.push(4); // ntype
    image.extend([0, 0]);
    push_u32(&mut image, le, 0);
    push_u32(&mut image, le, 0);
    assert_eq!(list(image).unwrap_err(), Jffs2Error::Truncated);
}

#[test]
fn invalid_utf8_name_is_bad_name() {
    let le = true;
    let mut image = Vec::new();
    dirent_node(&mut image, le, 1, 1, 2, 4, &[0xFF, 0xFE]);
    assert_eq!(list(image).unwrap_err(), Jffs2Error::BadName);
}

#[test]
fn name_truncates_at_first_nul() {
    let le = true;
    let mut image = Vec::new();
    dirent_node(&mut image, le, 1, 1, 2, 4, b"ab\0cd");
    let entries = list(image).unwrap();
    assert_eq!(entries[0].path(), "ab");
}

#[test]
fn non_ascii_name_decodes_as_utf8() {
    let le = true;
    let mut image = Vec::new();
    dirent_node(&mut image, le, 1, 1, 2, 4, "caf\u{e9}".as_bytes());
    let entries = list(image).unwrap();
    assert_eq!(entries[0].path(), "caf\u{e9}");
}

#[test]
fn parent_loop_is_a_cycle() {
    let le = true;
    let mut image = Vec::new();
    dirent_node(&mut image, le, 3, 1, 2, 4, b"a");
    dirent_node(&mut image, le, 2, 1, 3, 4, b"b");
    assert_eq!(list(image).unwrap_err(), Jffs2Error::Cycle);
}

#[test]
fn dot_dot_names_cannot_escape_upward() {
    let le = true;
    let mut image = Vec::new();
    dirent_node(&mut image, le, 1, 1, 2, 4, b"..");
    dirent_node(&mut image, le, 2, 1, 3, 8, b"evil");
    inode_node(&mut image, le, 3, 1, 2, 0, 2, 0x00, b"xx");
    let out = extract(image).unwrap();
    assert_eq!(out[0].path, "");
    assert_eq!(out[1].path, "evil");
}

#[test]
fn slash_in_name_splits_into_components() {
    let le = true;
    let mut image = Vec::new();
    dirent_node(&mut image, le, 1, 1, 2, 8, b"a/../b");
    inode_node(&mut image, le, 2, 1, 2, 0, 2, 0x00, b"xx");
    let out = extract(image).unwrap();
    assert_eq!(out[0].path, "b");
}

#[test]
fn embedded_dot_dot_cannot_escape_upward() {
    let le = true;
    let mut image = Vec::new();
    dirent_node(&mut image, le, 1, 1, 2, 8, b"../../x");
    inode_node(&mut image, le, 2, 1, 2, 0, 2, 0x00, b"xx");
    let out = extract(image).unwrap();
    assert_eq!(out[0].path, "x");
}

#[test]
fn entries_order_fragments_by_ascending_offset() {
    let le = true;
    let mut image = Vec::new();
    dirent_node(&mut image, le, 1, 1, 2, 8, b"f");
    // Recorded out of order; the enumerated entry holds them sorted.
    inode_node(&mut image, le, 2, 1, 7, 4, 3, 0x00, b"abc");
    inode_node(&mut image, le, 2, 1, 7, 0, 4, 0x00, b"wxyz");
    let entries = list(image).unwrap();
    assert_eq!(entries[0].inodes.len(), 2);
    assert_eq!(entries[0].inodes[0].offset(), 0);
    assert_eq!(entries[0].inodes[1].offset(), 4);
}

#[test]
fn entry_size_sums_fragment_dsizes() {
    let le = true;
    let mut image = Vec::new();
    dirent_node(&mut image, le, 1, 1, 2, 8, b"f");
    inode_node(&mut image, le, 2, 1, 7, 0, 4, 0x01, b"");
    inode_node(&mut image, le, 2, 1, 7, 4, 3, 0x00, b"abc");
    let entries = list(image).unwrap();
    assert_eq!(entries.len(), 1);
    assert!(entries[0].is_file());
    assert_eq!(entries[0].size(), 7);
}

#[test]
fn stale_fragment_version_is_discarded() {
    let le = true;
    let mut image = Vec::new();
    dirent_node(&mut image, le, 1, 1, 2, 8, b"f");
    inode_node(&mut image, le, 2, 2, 3, 0, 3, 0x00, b"new");
    inode_node(&mut image, le, 2, 1, 3, 0, 3, 0x00, b"old");
    let out = extract(image).unwrap();
    assert_eq!(out[0].data, b"new");
}

#[test]
fn inode_getters_report_fields() {
    let le = true;
    let mut image = Vec::new();
    dirent_node(&mut image, le, 1, 1, 2, 8, b"f");
    inode_node(&mut image, le, 2, 7, 3, 5, 3, 0x00, b"abc");
    let entries = list(image).unwrap();
    let node = &entries[0].inodes[0];
    assert_eq!(node.version(), 7);
    assert_eq!(node.offset(), 5);
    assert_eq!(node.compressed_size(), 3);
    assert_eq!(node.decompressed_size(), 3);
    assert_eq!(node.compression_method(), 0);
    // The dirent node occupies 44 padded bytes, so the inode node starts
    // at 44 and its data begins at 44 + 12 + 56.
    assert_eq!(node.data_offset(), 112);
}

#[test]
fn jffs_fix_drops_trailing_empty_component() {
    let fixed = vec![String::from("a"), String::new()].jffs_fix();
    assert_eq!(fixed, vec![String::from("a")]);
    let single = vec![String::new()].jffs_fix();
    assert_eq!(single, vec![String::new()]);
    let untouched = vec![String::from("a"), String::from("b")].jffs_fix();
    assert_eq!(untouched, vec![String::from("a"), String::from("b")]);
}

#[test]
fn resync_skips_garbage_between_nodes() {
    let le = true;
    let mut image = Vec::new();
    dirent_node(&mut image, le, 1, 1, 2, 4, b"first");
    image.extend([0x00, 0x00, 0x00, 0x00]); // stray bytes: the scan resyncs in 4-byte steps
    dirent_node(&mut image, le, 1, 1, 3, 4, b"second");
    let entries = list(image).unwrap();
    assert_eq!(entries.len(), 2);
    assert_eq!(entries[0].path(), "first");
    assert_eq!(entries[1].path(), "second");
}
