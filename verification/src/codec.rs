//! The codec dispatcher: decodes one fragment according to its codec tag.
//! NONE, ZERO and RTIME are decoded here; ZLIB and LZMA call their library
//! decoders, whose output is named as a function of the input bytes;
//! dynamic Rubin and LZO are external collaborators behind the
//! [`ExternalCodec`] trait; RUBINMIPS and COPY are always fatal.

use vstd::prelude::*;
use vstd::slice::{slice_subrange, slice_to_vec};
use crate::err::Jffs2Error;
use crate::node::Jffs2Inode;
use crate::rtime::{spec_rtime, rtime_decompress};

verus! {

/// Codec tag: bytes stored verbatim.
pub const JFFS2_COMPR_NONE: u8 = 0x00;

/// Codec tag: a run of zero bytes, nothing stored.
pub const JFFS2_COMPR_ZERO: u8 = 0x01;

/// Codec tag: the RTIME scheme.
pub const JFFS2_COMPR_RTIME: u8 = 0x02;

/// Codec tag: obsolete Rubin variant, never decoded.
pub const JFFS2_COMPR_RUBINMIPS: u8 = 0x03;

/// Codec tag: reserved, never implemented.
pub const JFFS2_COMPR_COPY: u8 = 0x04;

/// Codec tag: dynamic Rubin, decoded by an external collaborator.
pub const JFFS2_COMPR_DYNRUBIN: u8 = 0x05;

/// Codec tag: a zlib stream.
pub const JFFS2_COMPR_ZLIB: u8 = 0x06;

/// Codec tag: LZO1X, decoded by an external collaborator.
pub const JFFS2_COMPR_LZO: u8 = 0x07;

/// Codec tag: a headerless LZMA1 stream.
pub const JFFS2_COMPR_LZMA: u8 = 0x08;

/// Whether the tag names a codec the reader can dispatch at all.
pub open spec fn spec_supported(c: u8) -> bool {
    c == JFFS2_COMPR_NONE || c == JFFS2_COMPR_ZERO || c == JFFS2_COMPR_RTIME || c
        == JFFS2_COMPR_DYNRUBIN || c == JFFS2_COMPR_ZLIB || c == JFFS2_COMPR_LZO || c
        == JFFS2_COMPR_LZMA
}

/// Whether the tag names a codec whose whole output is determined here as a
/// function of the image: everything dispatchable except the two external
/// collaborators.
pub open spec fn spec_det_codec(c: u8) -> bool {
    c == JFFS2_COMPR_NONE || c == JFFS2_COMPR_ZERO || c == JFFS2_COMPR_RTIME || c
        == JFFS2_COMPR_ZLIB || c == JFFS2_COMPR_LZMA
}

/// The compressed bytes of a fragment: `csize` bytes at image offset
/// `data`.
pub open spec fn frag_input(img: Seq<u8>, f: Jffs2Inode) -> Seq<u8> {
    img.subrange(f.data as int, f.data + f.csize)
}

/// What `zlib_decompress` returns on the given bytes: the decoded stream,
/// or nothing when the stream is rejected.
pub uninterp spec fn zlib_inflated(input: Seq<u8>) -> Option<Seq<u8>>;

/// What `lzma_decompress_all` returns on the given bytes (a 13-byte LZMA
/// header followed by the stream): the decoded bytes, or nothing when the
/// stream is rejected.
pub uninterp spec fn lzma_inflated(input: Seq<u8>) -> Option<Seq<u8>>;

/// The reconstructed 13-byte LZMA header of a fragment: properties byte
/// zero (`lc = lp = pb = 0`), little-endian dictionary size `0x2000`, and
/// the decompressed size as a little-endian 64-bit value.
pub open spec fn spec_lzma_header(dsize: u32) -> Seq<u8> {
    seq![
        0u8,
        0x00u8,
        0x20u8,
        0x00u8,
        0x00u8,
        (dsize % 0x100) as u8,
        ((dsize / 0x100) % 0x100) as u8,
        ((dsize / 0x10000) % 0x100) as u8,
        ((dsize / 0x1000000) % 0x100) as u8,
        0u8,
        0u8,
        0u8,
        0u8,
    ]
}

/// What the decoder of a fragment emits before any truncation, for the
/// codecs whose output is determined by the image bytes alone.
pub open spec fn spec_decoder_output(img: Seq<u8>, f: Jffs2Inode) -> Option<Seq<u8>> {
    if f.compr == JFFS2_COMPR_NONE {
        Some(frag_input(img, f))
    } else if f.compr == JFFS2_COMPR_ZERO {
        Some(Seq::new(f.dsize as nat, |i: int| 0u8))
    } else if f.compr == JFFS2_COMPR_RTIME {
        spec_rtime(frag_input(img, f), f.dsize as int)
    } else if f.compr == JFFS2_COMPR_ZLIB {
        zlib_inflated(frag_input(img, f))
    } else if f.compr == JFFS2_COMPR_LZMA {
        lzma_inflated(spec_lzma_header(f.dsize) + frag_input(img, f))
    } else {
        None
    }
}

/// Relies on flate2's `ZlibDecoder`: reading it to the end decodes the
/// zlib stream held in `input`, and the outcome depends on the input bytes
/// alone.
#[verifier::external_body]
fn zlib_decompress(input: &[u8]) -> (r: Result<Vec<u8>, Jffs2Error>)
    ensures
        r matches Ok(v) ==> zlib_inflated(input@) == Some(v@),
        r is Err ==> zlib_inflated(input@) is None,
        r matches Err(e) ==> e == Jffs2Error::CodecFailure,
{
    let mut decoder = flate2::read::ZlibDecoder::new(input);
    let mut buf: Vec<u8> = Vec::new();
    match std::io::Read::read_to_end(&mut decoder, &mut buf) {
        Ok(_) => Ok(buf),
        Err(_) => Err(Jffs2Error::CodecFailure),
    }
}

/// Relies on `lzma_rs::lzma_decompress`: it decodes an LZMA1 stream whose
/// 13-byte header `input` begins with, and the outcome depends on the input
/// bytes alone.
#[verifier::external_body]
fn lzma_decompress_all(input: &[u8]) -> (r: Result<Vec<u8>, Jffs2Error>)
    ensures
        r matches Ok(v) ==> lzma_inflated(input@) == Some(v@),
        r is Err ==> lzma_inflated(input@) is None,
        r matches Err(e) ==> e == Jffs2Error::CodecFailure,
{
    let mut cursor = std::io::Cursor::new(input);
    let mut out: Vec<u8> = Vec::new();
    match lzma_rs::lzma_decompress(&mut cursor, &mut out) {
        Ok(()) => Ok(out),
        Err(_) => Err(Jffs2Error::CodecFailure),
    }
}

/// The decoders the reader takes as external collaborators, keyed by the
/// two codecs that have no library decoder here. An implementation must
/// emit exactly `dsize` bytes when it succeeds, and a decoder that rejects
/// its input fails with `CodecFailure`, never with another variant.
pub trait ExternalCodec {
    /// LZO1X decode of `input` into exactly `dsize` bytes.
    fn lzo_decompress(&self, input: &[u8], dsize: usize) -> (r: Result<Vec<u8>, Jffs2Error>)
        ensures
            r matches Ok(v) ==> v@.len() == dsize,
            r matches Err(e) ==> e == Jffs2Error::CodecFailure,
    ;

    /// Dynamic-Rubin decode of `input` into exactly `dsize` bytes.
    fn dynrubin_decompress(&self, input: &[u8], dsize: usize) -> (r: Result<Vec<u8>, Jffs2Error>)
        ensures
            r matches Ok(v) ==> v@.len() == dsize,
            r matches Err(e) ==> e == Jffs2Error::CodecFailure,
    ;
}

/// The codec set of a build with no external decoders linked: every
/// dynamic-Rubin or LZO fragment fails with `CodecFailure`.
pub struct NoExternalCodecs;

impl ExternalCodec for NoExternalCodecs {
    fn lzo_decompress(&self, input: &[u8], dsize: usize) -> (r: Result<Vec<u8>, Jffs2Error>) {
        Err(Jffs2Error::CodecFailure)
    }

    fn dynrubin_decompress(&self, input: &[u8], dsize: usize) -> (r: Result<Vec<u8>, Jffs2Error>) {
        Err(Jffs2Error::CodecFailure)
    }
}

/// Prepends the reconstructed LZMA header to the fragment bytes.
fn lzma_build_input(input: &[u8], dsize: u32) -> (r: Vec<u8>)
    ensures
        r@ == spec_lzma_header(dsize) + input@,
{
    let mut v: Vec<u8> = Vec::new();
    v.push(0);
    v.push(0x00);
    v.push(0x20);
    v.push(0x00);
    v.push(0x00);
    v.push((dsize % 0x100) as u8);
    v.push(((dsize / 0x100) % 0x100) as u8);
    v.push(((dsize / 0x10000) % 0x100) as u8);
    v.push(((dsize / 0x1000000) % 0x100) as u8);
    v.push(0);
    v.push(0);
    v.push(0);
    v.push(0);
    proof {
        assert(v@ =~= spec_lzma_header(dsize));
    }
    let mut i: usize = 0;
    while i < input.len()
        invariant
            0 <= i <= input@.len(),
            v@ == spec_lzma_header(dsize) + input@.subrange(0, i as int),
        decreases input@.len() - i,
    {
        v.push(input[i]);
        proof {
            assert(v@ =~= spec_lzma_header(dsize) + input@.subrange(0, i as int + 1));
        }
        i = i + 1;
    }
    proof {
        assert(input@.subrange(0, input@.len() as int) =~= input@);
        assert(v@ =~= spec_lzma_header(dsize) + input@);
    }
    v
}

/// A vector of `n` zero bytes.
fn zero_bytes(n: usize) -> (r: Vec<u8>)
    ensures
        r@ == Seq::new(n as nat, |i: int| 0u8),
{
    let mut v: Vec<u8> = Vec::new();
    while v.len() < n
        invariant
            v@.len() <= n,
            forall|i: int| 0 <= i < v@.len() ==> v@[i] == 0u8,
        decreases n - v@.len(),
    {
        v.push(0);
    }
    proof {
        assert(v@ =~= Seq::new(n as nat, |i: int| 0u8));
    }
    v
}

/// Decodes one fragment according to its codec tag. For the codecs decoded
/// by the reader or its libraries the result is exactly the decoder output
/// of the fragment; for the external collaborators it is `dsize` bytes
/// whose values depend on the collaborator; RUBINMIPS, COPY and unknown
/// tags fail `Unsupported`.
pub fn decode_fragment<C: ExternalCodec>(codec: &C, img: &[u8], f: &Jffs2Inode) -> (r: Result<
    Vec<u8>,
    Jffs2Error,
>)
    requires
        f.data + f.csize <= img@.len(),
    ensures
        !spec_supported(f.compr) ==> r == Err::<Vec<u8>, Jffs2Error>(Jffs2Error::Unsupported),
        spec_det_codec(f.compr) ==> (match spec_decoder_output(img@, *f) {
            Some(s) => r matches Ok(v) && v@ == s,
            None => r == Err::<Vec<u8>, Jffs2Error>(Jffs2Error::CodecFailure),
        }),
        (f.compr == JFFS2_COMPR_DYNRUBIN || f.compr == JFFS2_COMPR_LZO) ==> (r matches Ok(v)
            ==> v@.len() == f.dsize),
        (f.compr == JFFS2_COMPR_DYNRUBIN || f.compr == JFFS2_COMPR_LZO) ==> (r matches Err(e)
            ==> e == Jffs2Error::CodecFailure),
{
    let img_len = img.len();
    assert(f.data + f.csize <= img_len);
    let input = slice_subrange(img, f.data as usize, f.data as usize + f.csize as usize);
    if f.compr == JFFS2_COMPR_NONE {
        Ok(slice_to_vec(input))
    } else if f.compr == JFFS2_COMPR_ZERO {
        Ok(zero_bytes(f.dsize as usize))
    } else if f.compr == JFFS2_COMPR_RTIME {
        rtime_decompress(input, f.dsize as usize)
    } else if f.compr == JFFS2_COMPR_ZLIB {
        zlib_decompress(input)
    } else if f.compr == JFFS2_COMPR_LZMA {
        let full = lzma_build_input(input, f.dsize);
        lzma_decompress_all(full.as_slice())
    } else if f.compr == JFFS2_COMPR_LZO {
        codec.lzo_decompress(input, f.dsize as usize)
    } else if f.compr == JFFS2_COMPR_DYNRUBIN {
        codec.dynrubin_decompress(input, f.dsize as usize)
    } else {
        Err(Jffs2Error::Unsupported)
    }
}

} // verus!
