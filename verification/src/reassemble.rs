//! Fragment reassembly: order a file's fragments by ascending logical
//! offset, keeping the recorded order among equal offsets, then emit each
//! fragment's decoded bytes truncated to its stated decompressed size.

use vstd::prelude::*;
use vstd::math::min;
use crate::codec::{ExternalCodec, decode_fragment, spec_det_codec, spec_decoder_output,
    spec_supported};
use crate::entry::sum_dsize;
use crate::err::Jffs2Error;
use crate::node::Jffs2Inode;

verus! {

/// Index of the first fragment with the least offset.
pub open spec fn first_min_idx(s: Seq<Jffs2Inode>) -> int
    decreases s.len(),
{
    if s.len() <= 1 {
        0
    } else {
        let j = first_min_idx(s.drop_first()) + 1;
        if s[0].offset <= s[j].offset {
            0
        } else {
            j
        }
    }
}

/// `first_min_idx` lands on the first fragment whose offset no other
/// fragment undercuts.
pub proof fn lemma_first_min_idx(s: Seq<Jffs2Inode>)
    requires
        s.len() > 0,
    ensures
        0 <= first_min_idx(s) < s.len(),
        forall|k: int|
            0 <= k < s.len() ==> s[first_min_idx(s)].offset <= (#[trigger] s[k]).offset,
        forall|k: int| 0 <= k < first_min_idx(s) ==> (#[trigger] s[k]).offset
            > s[first_min_idx(s)].offset,
    decreases s.len(),
{
    if s.len() > 1 {
        lemma_first_min_idx(s.drop_first());
        assert(forall|k: int| 1 <= k < s.len() ==> s.drop_first()[k - 1] == #[trigger] s[k]);
    }
}

/// The fragments in emission order: repeatedly the first fragment with the
/// least offset, which is a stable sort by offset.
pub open spec fn spec_sort_frags(s: Seq<Jffs2Inode>) -> Seq<Jffs2Inode>
    decreases s.len(),
    via spec_sort_frags_decreases
{
    if s.len() == 0 {
        s
    } else {
        seq![s[first_min_idx(s)]] + spec_sort_frags(s.remove(first_min_idx(s)))
    }
}

#[via_fn]
proof fn spec_sort_frags_decreases(s: Seq<Jffs2Inode>) {
    if s.len() > 0 {
        lemma_first_min_idx(s);
    }
}

/// Removing an index removes exactly that element's contribution to the
/// decompressed-size sum.
proof fn lemma_sum_dsize_remove(s: Seq<Jffs2Inode>, i: int)
    requires
        0 <= i < s.len(),
    ensures
        sum_dsize(s) == sum_dsize(s.remove(i)) + s[i].dsize,
    decreases s.len(),
{
    if i == s.len() - 1 {
        assert(s.remove(i) =~= s.drop_last());
    } else {
        lemma_sum_dsize_remove(s.drop_last(), i);
        assert(s.remove(i).drop_last() =~= s.drop_last().remove(i));
        assert(s.remove(i).last() == s.last());
    }
}

/// Ordering the fragments does not change the decompressed-size sum.
pub proof fn lemma_sort_frags_sum(s: Seq<Jffs2Inode>)
    ensures
        sum_dsize(spec_sort_frags(s)) == sum_dsize(s),
    decreases s.len(),
{
    if s.len() > 0 {
        let i = first_min_idx(s);
        lemma_first_min_idx(s);
        lemma_sort_frags_sum(s.remove(i));
        lemma_sum_dsize_remove(s, i);
        let sorted = seq![s[i]] + spec_sort_frags(s.remove(i));
        assert(sorted.drop_first() =~= spec_sort_frags(s.remove(i)));
        lemma_sum_dsize_first(sorted);
    }
}

/// The sum taken from the front: first element plus the rest.
proof fn lemma_sum_dsize_first(s: Seq<Jffs2Inode>)
    requires
        s.len() > 0,
    ensures
        sum_dsize(s) == s[0].dsize + sum_dsize(s.drop_first()),
    decreases s.len(),
{
    if s.len() == 1 {
        assert(s.drop_first() =~= Seq::<Jffs2Inode>::empty());
        assert(s.drop_last() =~= Seq::<Jffs2Inode>::empty());
        assert(sum_dsize(s) == sum_dsize(s.drop_last()) + s.last().dsize);
    } else {
        lemma_sum_dsize_first(s.drop_last());
        assert(s.drop_first().drop_last() =~= s.drop_last().drop_first());
        assert(s.drop_first().last() == s.last());
        assert(s.drop_last()[0] == s[0]);
        assert(sum_dsize(s.drop_first()) == sum_dsize(s.drop_first().drop_last())
            + s.drop_first().last().dsize);
        assert(sum_dsize(s) == sum_dsize(s.drop_last()) + s.last().dsize);
    }
}

/// What one fragment contributes to the output length: its decoder output
/// truncated to `dsize` for the codecs decoded here, and exactly `dsize`
/// for the external collaborators.
pub open spec fn spec_emit_len(img: Seq<u8>, f: Jffs2Inode) -> int {
    if spec_det_codec(f.compr) {
        match spec_decoder_output(img, f) {
            Some(s) => min(s.len() as int, f.dsize as int),
            None => 0,
        }
    } else {
        f.dsize as int
    }
}

/// Total output length of a fragment sequence in emission order.
pub open spec fn spec_total_emit_len(img: Seq<u8>, s: Seq<Jffs2Inode>) -> int
    decreases s.len(),
{
    if s.len() == 0 {
        0
    } else {
        spec_total_emit_len(img, s.drop_last()) + spec_emit_len(img, s.last())
    }
}

/// Whether every fragment of the sequence is decoded here (no external
/// collaborator involved) and its decoder accepts its input.
pub open spec fn spec_all_det(img: Seq<u8>, s: Seq<Jffs2Inode>) -> bool {
    forall|i: int|
        0 <= i < s.len() ==> spec_det_codec((#[trigger] s[i]).compr) && spec_decoder_output(
            img,
            s[i],
        ) is Some
}

/// The emitted bytes of one fragment whose decoder output is determined:
/// the output truncated to `dsize`.
pub open spec fn spec_emit_bytes(img: Seq<u8>, f: Jffs2Inode) -> Seq<u8> {
    let out = spec_decoder_output(img, f)->Some_0;
    out.take(min(out.len() as int, f.dsize as int))
}

/// The reassembled contents of a fragment sequence in emission order, when
/// every decoder output is determined.
pub open spec fn spec_file_bytes(img: Seq<u8>, s: Seq<Jffs2Inode>) -> Seq<u8>
    decreases s.len(),
{
    if s.len() == 0 {
        Seq::empty()
    } else {
        spec_file_bytes(img, s.drop_last()) + spec_emit_bytes(img, s.last())
    }
}

/// When every fragment emits exactly its stated decompressed size, the
/// reassembled length is the sum of those sizes, over the fragments in
/// any recorded order.
pub proof fn lemma_full_emission_length(img: Seq<u8>, s: Seq<Jffs2Inode>)
    requires
        forall|i: int|
            0 <= i < spec_sort_frags(s).len() ==> spec_emit_len(
                img,
                #[trigger] spec_sort_frags(s)[i],
            ) == spec_sort_frags(s)[i].dsize,
    ensures
        spec_total_emit_len(img, spec_sort_frags(s)) == sum_dsize(s),
{
    lemma_sort_frags_sum(s);
    lemma_total_emit_is_dsize_sum(img, spec_sort_frags(s));
}

/// Whether the fragments, in emission order, tile `[0, total)` without
/// holes or overlap: the first starts at offset zero, each next one starts
/// where the previous ended, and the last ends at `total`.
pub open spec fn spec_tiles(s: Seq<Jffs2Inode>, total: int) -> bool {
    &&& (s.len() == 0 ==> total == 0)
    &&& (s.len() > 0 ==> s[0].offset == 0 && s.last().offset + s.last().dsize == total)
    &&& (forall|i: int|
        0 <= i < s.len() - 1 ==> s[i + 1].offset == (#[trigger] s[i]).offset + s[i].dsize)
}

/// When the fragments tile `[0, total)`, their decompressed sizes sum to
/// `total`: with full emission, a reassembled file is then exactly as long
/// as the size its inode states.
pub proof fn lemma_tiled_fragments_sum(s: Seq<Jffs2Inode>, total: int)
    requires
        spec_tiles(s, total),
    ensures
        sum_dsize(s) == total,
    decreases s.len(),
{
    if s.len() == 0 {
        assert(sum_dsize(s) == 0);
        assert(sum_dsize(s) == total);
    } else if s.len() == 1 {
        assert(s.drop_last() =~= Seq::<Jffs2Inode>::empty());
        assert(sum_dsize(Seq::<Jffs2Inode>::empty()) == 0);
        assert(sum_dsize(s) == total);
    } else {
        let pre = s.drop_last();
        let n = s.len() as int;
        assert(forall|i: int| 0 <= i < pre.len() ==> #[trigger] pre[i] == s[i]);
        assert(forall|i: int|
            0 <= i < pre.len() - 1 ==> (#[trigger] pre[i + 1]).offset == pre[i].offset
                + pre[i].dsize);
        assert(pre.last() == s[n - 2]);
        assert(s[n - 1].offset == s[n - 2].offset + s[n - 2].dsize);
        lemma_tiled_fragments_sum(pre, pre.last().offset + pre.last().dsize);
        assert(sum_dsize(s) == sum_dsize(pre) + s.last().dsize);
        assert(sum_dsize(s) == total);
    }
}

/// Fragmentwise full emission makes the total the plain size sum.
proof fn lemma_total_emit_is_dsize_sum(img: Seq<u8>, s: Seq<Jffs2Inode>)
    requires
        forall|i: int| 0 <= i < s.len() ==> spec_emit_len(img, #[trigger] s[i]) == s[i].dsize,
    ensures
        spec_total_emit_len(img, s) == sum_dsize(s),
    decreases s.len(),
{
    if s.len() > 0 {
        lemma_total_emit_is_dsize_sum(img, s.drop_last());
    }
}

/// Every fragment of the emission order is a fragment of the input.
pub proof fn lemma_sort_frags_contains(s: Seq<Jffs2Inode>)
    ensures
        forall|k: int|
            0 <= k < spec_sort_frags(s).len() ==> s.contains(#[trigger] spec_sort_frags(s)[k]),
    decreases s.len(),
{
    if s.len() > 0 {
        lemma_first_min_idx(s);
        let fm = first_min_idx(s);
        let rest = s.remove(fm);
        lemma_sort_frags_contains(rest);
        assert forall|k: int|
            0 <= k < spec_sort_frags(s).len() implies s.contains(
            #[trigger] spec_sort_frags(s)[k],
        ) by {
            if k == 0 {
                assert(spec_sort_frags(s)[0] == s[fm]);
            } else {
                assert(spec_sort_frags(s)[k] == spec_sort_frags(rest)[k - 1]);
                assert(rest.contains(spec_sort_frags(rest)[k - 1]));
                let j = choose|j: int| 0 <= j < rest.len() && rest[j] == spec_sort_frags(rest)[
                    k - 1
                ];
                if j < fm {
                    assert(s[j] == rest[j]);
                } else {
                    assert(s[j + 1] == rest[j]);
                }
            }
        }
    }
}

/// Copies the fragments of `v` into emission order.
pub fn sort_frags(v: &Vec<Jffs2Inode>) -> (r: Vec<Jffs2Inode>)
    ensures
        r@ == spec_sort_frags(v@),
        forall|i: int| 0 <= i < r@.len() ==> v@.contains(#[trigger] r@[i]),
{
    let mut rest: Vec<Jffs2Inode> = Vec::new();
    let mut i: usize = 0;
    while i < v.len()
        invariant
            0 <= i <= v@.len(),
            rest@ == v@.take(i as int),
        decreases v@.len() - i,
    {
        rest.push(v[i]);
        proof {
            assert(rest@ =~= v@.take(i as int + 1));
        }
        i = i + 1;
    }
    proof {
        assert(v@.take(v@.len() as int) =~= v@);
    }
    let mut out: Vec<Jffs2Inode> = Vec::new();
    while rest.len() > 0
        invariant
            spec_sort_frags(v@) == out@ + spec_sort_frags(rest@),
            forall|k: int| 0 <= k < rest@.len() ==> v@.contains(#[trigger] rest@[k]),
            forall|k: int| 0 <= k < out@.len() ==> v@.contains(#[trigger] out@[k]),
        decreases rest@.len(),
    {
        let mut best: usize = 0;
        let mut k: usize = 1;
        while k < rest.len()
            invariant
                0 <= best < k <= rest@.len(),
                rest@.len() > 0,
                forall|j: int| 0 <= j < k ==> rest@[best as int].offset <= (#[trigger] rest@[j]).offset,
                forall|j: int| 0 <= j < best ==> (#[trigger] rest@[j]).offset
                    > rest@[best as int].offset,
            decreases rest@.len() - k,
        {
            if rest[k].offset < rest[best].offset {
                best = k;
            }
            k = k + 1;
        }
        proof {
            lemma_first_min_idx(rest@);
            let fm = first_min_idx(rest@);
            if fm < best {
                assert(rest@[fm].offset > rest@[best as int].offset);
            }
            if best < fm {
                assert(rest@[best as int].offset > rest@[fm].offset);
            }
            assert(best as int == fm);
        }
        let picked = rest.remove(best);
        out.push(picked);
        proof {
            assert(out@ + spec_sort_frags(rest@) =~= out@.drop_last() + (seq![picked]
                + spec_sort_frags(rest@)));
        }
    }
    proof {
        assert(spec_sort_frags(rest@) =~= Seq::<Jffs2Inode>::empty());
        assert(out@ + spec_sort_frags(rest@) =~= out@);
    }
    out
}

/// Reassembles a file from fragments already in emission order: decodes
/// each one, truncates it to its stated decompressed size, and
/// concatenates. The result's length is the total emission length, and
/// whenever every fragment's decoder output is determined by the image,
/// the bytes are exactly the reassembled contents.
#[verifier::rlimit(100)]
pub fn reassemble_sorted<C: ExternalCodec>(
    codec: &C,
    img: &[u8],
    frags: &Vec<Jffs2Inode>,
) -> (r: Result<Vec<u8>, Jffs2Error>)
    requires
        forall|i: int|
            0 <= i < frags@.len() ==> (#[trigger] frags@[i]).data + frags@[i].csize <= img@.len(),
    ensures
        r matches Ok(v) ==> v@.len() == spec_total_emit_len(img@, frags@),
        r matches Ok(v) ==> forall|i: int|
            0 <= i < frags@.len() ==> spec_supported((#[trigger] frags@[i]).compr),
        spec_all_det(img@, frags@) ==> (r matches Ok(v) && v@ == spec_file_bytes(img@, frags@)),
{
    let sorted = frags;
    let ghost ss = frags@;
    let mut out: Vec<u8> = Vec::new();
    let mut i: usize = 0;
    while i < sorted.len()
        invariant
            0 <= i <= ss.len(),
            ss == frags@,
            sorted@ == ss,
            forall|k: int|
                0 <= k < frags@.len() ==> (#[trigger] frags@[k]).data + frags@[k].csize
                    <= img@.len(),
            out@.len() == spec_total_emit_len(img@, ss.take(i as int)),
            forall|k: int| 0 <= k < i ==> spec_supported((#[trigger] ss[k]).compr),
            forall|k: int|
                0 <= k < i && spec_det_codec((#[trigger] ss[k]).compr) ==> spec_decoder_output(
                    img@,
                    ss[k],
                ) is Some,
            spec_all_det(img@, ss.take(i as int)) ==> out@ == spec_file_bytes(
                img@,
                ss.take(i as int),
            ),
        decreases ss.len() - i,
    {
        let f = &sorted[i];
        let mut piece = match decode_fragment(codec, img, f) {
            Err(e) => {
                proof {
                    if spec_all_det(img@, ss) {
                        assert(spec_det_codec(ss[i as int].compr));
                        assert(spec_decoder_output(img@, ss[i as int]) is Some);
                    }
                }
                return Err(e);
            },
            Ok(p) => p,
        };
        if piece.len() > f.dsize as usize {
            piece.truncate(f.dsize as usize);
        }
        let ghost opre = out@;
        let mut j: usize = 0;
        while j < piece.len()
            invariant
                0 <= j <= piece@.len(),
                out@ == opre + piece@.take(j as int),
            decreases piece@.len() - j,
        {
            out.push(piece[j]);
            proof {
                assert(out@ =~= opre + piece@.take(j as int + 1));
            }
            j = j + 1;
        }
        proof {
            assert(piece@.take(piece@.len() as int) =~= piece@);
            assert(out@ =~= opre + piece@);
            assert(ss.take(i as int + 1).drop_last() =~= ss.take(i as int));
            assert(ss.take(i as int + 1).last() == ss[i as int]);
            if spec_det_codec(ss[i as int].compr) {
                assert(piece@ =~= spec_emit_bytes(img@, ss[i as int]));
            }
            if spec_all_det(img@, ss.take(i as int + 1)) {
                assert(spec_all_det(img@, ss.take(i as int)));
                assert(out@ =~= spec_file_bytes(img@, ss.take(i as int + 1)));
            }
        }
        i = i + 1;
    }
    proof {
        assert(ss.take(ss.len() as int) =~= ss);
    }
    Ok(out)
}

/// Reassembles one file from fragments in any recorded order: orders them
/// by ascending logical offset, keeping the recorded order among equal
/// offsets, and emits them as [`reassemble_sorted`] does.
pub fn reassemble_fragments<C: ExternalCodec>(
    codec: &C,
    img: &[u8],
    frags: &Vec<Jffs2Inode>,
) -> (r: Result<Vec<u8>, Jffs2Error>)
    requires
        forall|i: int|
            0 <= i < frags@.len() ==> (#[trigger] frags@[i]).data + frags@[i].csize <= img@.len(),
    ensures
        r matches Ok(v) ==> v@.len() == spec_total_emit_len(img@, spec_sort_frags(frags@)),
        r matches Ok(v) ==> forall|i: int|
            0 <= i < spec_sort_frags(frags@).len() ==> spec_supported(
                (#[trigger] spec_sort_frags(frags@)[i]).compr,
            ),
        spec_all_det(img@, spec_sort_frags(frags@)) ==> (r matches Ok(v) && v@ == spec_file_bytes(
            img@,
            spec_sort_frags(frags@),
        )),
{
    let sorted = sort_frags(frags);
    reassemble_sorted(codec, img, &sorted)
}

/// The whole of the reassembled-length half of the story: when every
/// fragment emits exactly its stated decompressed size and the fragments
/// tile `[0, isize)` in emission order, the reassembled byte count is the
/// inode's `isize`.
pub proof fn lemma_tiled_full_emission(img: Seq<u8>, s: Seq<Jffs2Inode>, isize: int)
    requires
        forall|i: int|
            0 <= i < spec_sort_frags(s).len() ==> spec_emit_len(
                img,
                #[trigger] spec_sort_frags(s)[i],
            ) == spec_sort_frags(s)[i].dsize,
        spec_tiles(spec_sort_frags(s), isize),
    ensures
        spec_total_emit_len(img, spec_sort_frags(s)) == isize,
        sum_dsize(s) == isize,
{
    lemma_full_emission_length(img, s);
    lemma_sort_frags_sum(s);
    lemma_tiled_fragments_sum(spec_sort_frags(s), isize);
}

} // verus!
