//! The RTIME decoder: a byte-pair scheme where each pair holds a literal
//! byte and a repeat count, and the repeat copies from the position where
//! that literal was last seen. A copy may overlap the bytes it is itself
//! producing, which gives run-length behavior, so it is defined byte by
//! byte.

use vstd::prelude::*;
use crate::err::Jffs2Error;

verus! {

/// `r` bytes appended one at a time from position `back` onward; the source
/// region may grow under the copy.
pub open spec fn spec_rtime_copy(dst: Seq<u8>, back: int, r: int) -> Seq<u8>
    decreases r,
{
    if r <= 0 {
        dst
    } else {
        spec_rtime_copy(dst.push(dst[back]), back + 1, r - 1)
    }
}

/// The decode continued at input position `pos` with output `dst` and
/// last-seen table `table`, until the output holds at least `need` bytes;
/// `None` when the input ends first.
pub open spec fn spec_rtime_from(
    input: Seq<u8>,
    pos: int,
    dst: Seq<u8>,
    table: Seq<int>,
    need: int,
) -> Option<Seq<u8>>
    decreases input.len() - pos,
    when pos >= 0
{
    if dst.len() >= need {
        Some(dst)
    } else if pos + 2 > input.len() {
        None
    } else {
        let v = input[pos];
        let rep = input[pos + 1];
        let dst1 = dst.push(v);
        let back = table[v as int];
        let table1 = table.update(v as int, dst1.len() as int);
        let dst2 = if rep == 0 {
            dst1
        } else {
            spec_rtime_copy(dst1, back, rep as int)
        };
        spec_rtime_from(input, pos + 2, dst2, table1, need)
    }
}

/// The RTIME decode of `input` aiming at `need` output bytes: all positions
/// start at zero and the output starts empty.
pub open spec fn spec_rtime(input: Seq<u8>, need: int) -> Option<Seq<u8>> {
    spec_rtime_from(input, 0, Seq::empty(), Seq::new(256, |i: int| 0), need)
}

/// Decodes an RTIME-compressed fragment, producing at least `dstlen` bytes,
/// or `CodecFailure` when the input ends before the output is full.
pub fn rtime_decompress(input: &[u8], dstlen: usize) -> (r: Result<Vec<u8>, Jffs2Error>)
    ensures
        (match spec_rtime(input@, dstlen as int) {
            Some(s) => r matches Ok(v) && v@ == s,
            None => r == Err::<Vec<u8>, Jffs2Error>(Jffs2Error::CodecFailure),
        }),
{
    let mut dst: Vec<u8> = Vec::new();
    let mut position: Vec<usize> = Vec::new();
    while position.len() < 256
        invariant
            position@.len() <= 256,
            forall|b: int| 0 <= b < position@.len() ==> position@[b] == 0,
        decreases 256 - position@.len(),
    {
        position.push(0);
    }
    let ghost table0 = Seq::new(256, |i: int| 0int);
    proof {
        assert(position@.map_values(|x: usize| x as int) =~= table0);
    }
    let mut pos: usize = 0;
    while dst.len() < dstlen
        invariant
            position@.len() == 256,
            pos <= input@.len(),
            forall|b: int| 0 <= b < 256 ==> 0 <= #[trigger] position@[b] <= dst@.len(),
            spec_rtime(input@, dstlen as int) == spec_rtime_from(
                input@,
                pos as int,
                dst@,
                position@.map_values(|x: usize| x as int),
                dstlen as int,
            ),
        decreases input@.len() - pos,
    {
        if input.len() - pos < 2 {
            return Err(Jffs2Error::CodecFailure);
        }
        let ghost dst0 = dst@;
        let ghost tbl0 = position@.map_values(|x: usize| x as int);
        let val = input[pos];
        let rep = input[pos + 1];
        pos = pos + 2;
        dst.push(val);
        let ghost dst1 = dst@;
        let mut backoffs = position[val as usize];
        position.set(val as usize, dst.len());
        proof {
            assert(position@.map_values(|x: usize| x as int) =~= tbl0.update(
                val as int,
                dst1.len() as int,
            ));
        }
        if rep != 0 {
            let ghost back0 = backoffs as int;
            let mut remaining: u8 = rep;
            while remaining > 0
                invariant
                    backoffs + remaining == back0 + rep,
                    backoffs < dst@.len(),
                    dst@.len() == dst1.len() + (rep - remaining),
                    spec_rtime_copy(dst1, back0, rep as int) == spec_rtime_copy(
                        dst@,
                        backoffs as int,
                        remaining as int,
                    ),
                decreases remaining as int,
            {
                let cur_len = dst.len();
                assert(backoffs < cur_len);
                let b = dst[backoffs];
                backoffs = backoffs + 1;
                dst.push(b);
                remaining = remaining - 1;
            }
            proof {
                assert(dst@ == spec_rtime_copy(dst1, back0, rep as int));
            }
        }
    }
    proof {
        assert(spec_rtime_from(
            input@,
            pos as int,
            dst@,
            position@.map_values(|x: usize| x as int),
            dstlen as int,
        ) == Some(dst@));
    }
    Ok(dst)
}

} // verus!
