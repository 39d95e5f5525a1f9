//! Byte-level access to the image: width-specific integer reads that honor
//! the image byte order, and the NUL-truncated name bytes of a dirent.

use vstd::prelude::*;
use crate::err::Jffs2Error;

verus! {

/// Value of two bytes given in increasing significance.
pub open spec fn word16(lo: u8, hi: u8) -> int {
    lo + 0x100 * hi
}

/// Value of four bytes given in increasing significance.
pub open spec fn word32(b0: u8, b1: u8, b2: u8, b3: u8) -> int {
    b0 + 0x100 * b1 + 0x10000 * b2 + 0x1000000 * b3
}

/// The 16-bit integer stored at `off` under the given byte order.
pub open spec fn spec_u16_at(data: Seq<u8>, little_endian: bool, off: int) -> int {
    if little_endian {
        word16(data[off], data[off + 1])
    } else {
        word16(data[off + 1], data[off])
    }
}

/// The 32-bit integer stored at `off` under the given byte order.
pub open spec fn spec_u32_at(data: Seq<u8>, little_endian: bool, off: int) -> int {
    if little_endian {
        word32(data[off], data[off + 1], data[off + 2], data[off + 3])
    } else {
        word32(data[off + 3], data[off + 2], data[off + 1], data[off])
    }
}

/// Reads the 16-bit integer at `offset`, honoring the image byte order.
pub fn read_u16(data: &[u8], little_endian: bool, offset: usize) -> (r: Result<u16, Jffs2Error>)
    ensures
        r is Ok <==> offset + 2 <= data@.len(),
        r matches Ok(v) ==> v as int == spec_u16_at(data@, little_endian, offset as int),
        r is Err ==> r == Err::<u16, Jffs2Error>(Jffs2Error::Truncated),
{
    if offset >= data.len() || data.len() - offset < 2 {
        return Err(Jffs2Error::Truncated);
    }
    let a = data[offset];
    let b = data[offset + 1];
    let (lo, hi) = if little_endian { (a, b) } else { (b, a) };
    Ok(lo as u16 + 0x100u16 * hi as u16)
}

/// Reads the 32-bit integer at `offset`, honoring the image byte order.
pub fn read_u32(data: &[u8], little_endian: bool, offset: usize) -> (r: Result<u32, Jffs2Error>)
    ensures
        r is Ok <==> offset + 4 <= data@.len(),
        r matches Ok(v) ==> v as int == spec_u32_at(data@, little_endian, offset as int),
        r is Err ==> r == Err::<u32, Jffs2Error>(Jffs2Error::Truncated),
{
    if offset >= data.len() || data.len() - offset < 4 {
        return Err(Jffs2Error::Truncated);
    }
    let a = data[offset];
    let b = data[offset + 1];
    let c = data[offset + 2];
    let d = data[offset + 3];
    let (b0, b1, b2, b3) = if little_endian { (a, b, c, d) } else { (d, c, b, a) };
    Ok(b0 as u32 + 0x100u32 * b1 as u32 + 0x10000u32 * b2 as u32 + 0x1000000u32 * b3 as u32)
}

/// Swapping the two bytes of a 16-bit field swaps which byte order reads
/// the original value: the byte-level core of the format's byte-order
/// symmetry.
pub proof fn lemma_byte_order_symmetry_u16(data: Seq<u8>, swapped: Seq<u8>, off: int)
    requires
        0 <= off,
        off + 2 <= data.len(),
        off + 2 <= swapped.len(),
        swapped[off] == data[off + 1],
        swapped[off + 1] == data[off],
    ensures
        spec_u16_at(swapped, true, off) == spec_u16_at(data, false, off),
        spec_u16_at(swapped, false, off) == spec_u16_at(data, true, off),
{
}

/// Under either byte order, reading the reverse of the same four bytes
/// gives the same value: the 32-bit half of the same symmetry.
pub proof fn lemma_byte_order_symmetry(data: Seq<u8>, swapped: Seq<u8>, off: int)
    requires
        0 <= off,
        off + 4 <= data.len(),
        off + 4 <= swapped.len(),
        swapped[off] == data[off + 3],
        swapped[off + 1] == data[off + 2],
        swapped[off + 2] == data[off + 1],
        swapped[off + 3] == data[off],
    ensures
        spec_u32_at(swapped, true, off) == spec_u32_at(data, false, off),
        spec_u32_at(swapped, false, off) == spec_u32_at(data, true, off),
{
}

/// The prefix of `s` before its first NUL byte (all of `s` if none occurs).
pub open spec fn until_nul(s: Seq<u8>) -> Seq<u8>
    decreases s.len(),
{
    if s.len() == 0 {
        s
    } else if s[0] == 0 {
        Seq::empty()
    } else {
        seq![s[0]] + until_nul(s.drop_first())
    }
}

proof fn lemma_until_nul_is_prefix(s: Seq<u8>, i: int)
    requires
        0 <= i <= s.len(),
        forall|j: int| 0 <= j < i ==> s[j] != 0,
        i < s.len() ==> s[i] == 0,
    ensures
        until_nul(s) == s.take(i),
    decreases s.len(),
{
    if s.len() == 0 {
        assert(until_nul(s) =~= s.take(i));
    } else if s[0] == 0 {
        assert(i == 0);
        assert(until_nul(s) =~= s.take(0));
    } else {
        assert(i >= 1);
        lemma_until_nul_is_prefix(s.drop_first(), i - 1);
        assert(until_nul(s) =~= s.take(i));
    }
}

/// Truncates `v` at its first NUL byte.
pub fn cut_at_nul(v: &mut Vec<u8>)
    ensures
        final(v)@ == until_nul(old(v)@),
{
    let mut i: usize = 0;
    while i < v.len() && v[i] != 0
        invariant
            0 <= i <= v@.len(),
            v@ == old(v)@,
            forall|j: int| 0 <= j < i ==> v@[j] != 0,
        decreases v@.len() - i,
    {
        i = i + 1;
    }
    proof {
        lemma_until_nul_is_prefix(v@, i as int);
    }
    v.truncate(i);
}

/// Relies on `String::from_utf8`: it succeeds exactly on valid UTF-8 input,
/// and the returned string holds the decoded characters of those bytes.
#[verifier::external_body]
pub fn string_from_utf8(bytes: Vec<u8>) -> (r: Option<String>)
    ensures
        r is Some <==> vstd::utf8::valid_utf8(bytes@),
        r matches Some(s) ==> s@ == vstd::utf8::decode_utf8(bytes@),
{
    String::from_utf8(bytes).ok()
}

} // verus!
