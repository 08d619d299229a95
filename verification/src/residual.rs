use vstd::prelude::*;

verus! {

/// Block `k` turned snapshot `k` of `streams` into snapshot `k + 1`.
pub open spec fn block_step<T, E, F: Fn(usize, &T) -> Result<T, E>>(
    block: F,
    streams: Seq<T>,
    k: int,
) -> bool {
    call_ensures(block, (k as usize, &streams[k]), Ok::<T, E>(streams[k + 1]))
}

/// Each snapshot of `streams` after the first is what `block`, called with
/// the index of the previous snapshot and that snapshot, gave back.
pub open spec fn is_block_chain<T, E, F: Fn(usize, &T) -> Result<T, E>>(
    block: F,
    streams: Seq<T>,
) -> bool {
    forall|k: int| 0 <= k < streams.len() - 1 ==> #[trigger] block_step::<T, E, F>(block, streams, k)
}

/// Runs the residual stream through `n_blocks` transformer blocks in order
/// and keeps every snapshot: the embedding output, then the output of each
/// block, `n_blocks + 1` snapshots in all. Block `k` is applied, through
/// `block(k, x)`, to snapshot `k`. The first block that fails stops the pass,
/// and its error is returned.
pub fn residual_streams<T, E, F: Fn(usize, &T) -> Result<T, E>>(
    embedded: T,
    n_blocks: usize,
    block: F,
) -> (res: Result<Vec<T>, E>)
    requires
        forall|k: usize, x: &T| k < n_blocks ==> call_requires(block, (k, x)),
    ensures
        match res {
            Ok(streams) => {
                &&& streams@.len() == n_blocks + 1
                &&& streams@[0] == embedded
                &&& is_block_chain::<T, E, F>(block, streams@)
            },
            Err(e) => exists|streams: Seq<T>|
                {
                    &&& 1 <= streams.len() <= n_blocks
                    &&& streams[0] == embedded
                    &&& #[trigger] is_block_chain::<T, E, F>(block, streams)
                    &&& call_ensures(
                        block,
                        ((streams.len() - 1) as usize, &streams.last()),
                        Err::<T, E>(e),
                    )
                },
        },
{
    let mut streams: Vec<T> = Vec::new();
    streams.push(embedded);
    let mut k: usize = 0;
    while k < n_blocks
        invariant
            forall|k: usize, x: &T| k < n_blocks ==> call_requires(block, (k, x)),
            k <= n_blocks,
            streams@.len() == k + 1,
            streams@[0] == embedded,
            is_block_chain::<T, E, F>(block, streams@),
        decreases n_blocks - k,
    {
        let ghost before = streams@;
        let next = block(k, &streams[k]);
        match next {
            Ok(x) => {
                streams.push(x);
                proof {
                    assert forall|j: int| 0 <= j < streams@.len() - 1 implies #[trigger] block_step::<T, E, F>(block, streams@, j) by {
                        if j < k {
                            assert(block_step::<T, E, F>(block, before, j));
                            assert(streams@[j] == before[j]);
                            assert(streams@[j + 1] == before[j + 1]);
                        }
                    }
                }
            },
            Err(e) => {
                proof {
                    assert(before.last() == before[k as int]);
                }
                return Err(e);
            },
        }
        k = k + 1;
    }
    Ok(streams)
}

} // verus!
