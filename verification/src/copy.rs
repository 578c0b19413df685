use vstd::prelude::*;

use crate::constants::{COPY_THRESHOLD, NUM_COPY_THREADS};

verus! {

/// The piece of a large copy that each copying thread takes: a quarter of the
/// bytes, rounded up.
pub open spec fn piece_len(size: nat) -> nat {
    (size + NUM_COPY_THREADS - 1) as nat / NUM_COPY_THREADS as nat
}

/// How a copy of `size` bytes is split among threads, as `(offset, len)` pieces:
/// one piece below the threshold, otherwise consecutive pieces of `piece_len`
/// bytes (the last one shorter where the size does not divide evenly), at most one
/// per thread, that together cover the bytes exactly.
pub fn copy_plan(size: usize) -> (r: Vec<(usize, usize)>)
    ensures
        size < COPY_THRESHOLD ==> r@ == seq![(0usize, size)],
        size >= COPY_THRESHOLD ==> {
            &&& 1 <= r@.len() <= NUM_COPY_THREADS
            &&& r@[0].0 == 0
            &&& forall|k: int| 0 <= k < r@.len() - 1 ==> #[trigger] r@[k + 1].0 == r@[k].0 + r@[k].1
            &&& r@.last().0 + r@.last().1 == size
            &&& forall|k: int| 0 <= k < r@.len() ==> 0 < #[trigger] r@[k].1 <= piece_len(size as nat)
            &&& forall|k: int| 0 <= k < r@.len() - 1 ==> #[trigger] r@[k].1 == piece_len(size as nat)
        },
{
    let mut pieces: Vec<(usize, usize)> = Vec::new();
    if size < COPY_THRESHOLD {
        pieces.push((0, size));
        return pieces;
    }
    let chunk = size / NUM_COPY_THREADS + if size % NUM_COPY_THREADS == 0 {
        0
    } else {
        1
    };
    assert(chunk == piece_len(size as nat));
    assert(chunk * 4 >= size) by (nonlinear_arith)
        requires
            chunk == size / 4 + if size % 4 == 0 { 0int } else { 1int },
            size >= 0,
    ;
    let mut offset: usize = 0;
    let mut t: usize = 0;
    while t < NUM_COPY_THREADS && offset < size
        invariant
            size >= COPY_THRESHOLD,
            chunk == piece_len(size as nat),
            chunk * 4 >= size,
            chunk > 0,
            t <= NUM_COPY_THREADS,
            pieces@.len() == t,
            offset <= size,
            t == 0 ==> offset == 0,
            offset < size ==> offset == t * chunk,
            t > 0 ==> pieces@[0].0 == 0,
            t > 0 ==> pieces@.last().0 + pieces@.last().1 == offset,
            forall|k: int| 0 <= k < t - 1 ==> #[trigger] pieces@[k + 1].0 == pieces@[k].0 + pieces@[k].1,
            forall|k: int| 0 <= k < t ==> 0 < #[trigger] pieces@[k].1 <= chunk,
            forall|k: int| 0 <= k < t - 1 ==> #[trigger] pieces@[k].1 == chunk,
            t > 0 && offset < size ==> pieces@.last().1 == chunk,
        decreases NUM_COPY_THREADS - t,
    {
        let rest = size - offset;
        let len = if chunk < rest {
            chunk
        } else {
            rest
        };
        pieces.push((offset, len));
        offset = offset + len;
        t = t + 1;
        assert(offset < size ==> offset == t * chunk) by (nonlinear_arith)
            requires
                offset < size ==> len == chunk,
                offset == (t - 1) * chunk + len || offset == size,
                offset - len < size ==> offset - len == (t - 1) * chunk,
        ;
    }
    assert(offset == size) by (nonlinear_arith)
        requires
            offset <= size,
            offset < size ==> offset == t * chunk,
            t == 4 || offset >= size,
            chunk * 4 >= size,
    ;
    pieces
}

/// Copies `dst[start..end]` from `src[start..end]` with `copy_from_slice`; the claim
/// is that those bytes of `dst` become those of `src` and no other byte changes.
#[verifier::external_body]
fn copy_range(dst: &mut [u8], src: &[u8], start: usize, end: usize)
    requires
        start <= end <= old(dst)@.len(),
        end <= src@.len(),
    ensures
        final(dst)@ == old(dst)@.subrange(0, start as int) + src@.subrange(start as int, end as int)
            + old(dst)@.subrange(end as int, old(dst)@.len() as int),
{
    dst[start..end].copy_from_slice(&src[start..end]);
}

/// Copies the first `size` bytes of `src` over the first `size` bytes of `dst`.
pub fn copy_nonoverlapping(dst: &mut [u8], src: &[u8], size: usize)
    requires
        size <= old(dst)@.len(),
        size <= src@.len(),
    ensures
        final(dst)@ == src@.take(size as int) + old(dst)@.skip(size as int),
{
    copy_range(dst, src, 0, size);
    assert(final(dst)@ =~= src@.take(size as int) + old(dst)@.skip(size as int));
}

} // verus!
