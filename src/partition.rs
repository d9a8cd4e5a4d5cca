use vstd::prelude::*;

verus! {

/// The chunk length for `rows` rows shared by `workers` workers: the
/// quotient rounded up.
pub open spec fn chunk_len(rows: nat, workers: nat) -> nat
    recommends
        workers > 0,
{
    rows / workers + if rows % workers == 0 {
        0nat
    } else {
        1nat
    }
}

/// Chunk `k` of a partition into chunks of length `c`: it starts at `k * c`
/// and ends `c` rows later, or at `rows`, whichever comes first.
pub open spec fn is_chunk(chunk: (usize, usize), k: int, c: nat, rows: nat) -> bool {
    &&& chunk.0 == k * c
    &&& chunk.0 < rows
    &&& chunk.1 == if k * c + c <= rows {
        k * c + c
    } else {
        rows as int
    }
}

/// Splits the row range `0..rows` into contiguous chunks of
/// `chunk_len(rows, workers)` rows each, the last one possibly shorter,
/// in ascending order. No row is left out and none is repeated.
pub fn partition(rows: usize, workers: usize) -> (r: Vec<(usize, usize)>)
    requires
        workers >= 1,
    ensures
        forall|k: int|
            0 <= k < r@.len() ==> is_chunk(
                #[trigger] r@[k],
                k,
                chunk_len(rows as nat, workers as nat),
                rows as nat,
            ),
        r@.len() == 0 <==> rows == 0,
        r@.len() <= workers,
        r@.len() > 0 ==> r@[0].0 == 0 && r@[r@.len() - 1].1 == rows,
        forall|k: int| 0 <= k < r@.len() ==> (#[trigger] r@[k]).0 < r@[k].1,
        forall|k: int| 0 <= k < r@.len() - 1 ==> (#[trigger] r@[k]).1 == r@[k + 1].0,
{
    let q: usize = rows / workers;
    proof {
        assert(rows % workers != 0 ==> q < rows) by (nonlinear_arith)
            requires
                workers >= 1,
                q == rows / workers,
        ;
    }
    let chunk: usize = q + if rows % workers == 0 {
        0
    } else {
        1
    };
    let ghost c = chunk_len(rows as nat, workers as nat);
    proof {
        if rows > 0 {
            assert(chunk >= 1) by (nonlinear_arith)
                requires
                    rows > 0,
                    workers >= 1,
                    chunk == rows / workers + if rows % workers == 0 {
                        0int
                    } else {
                        1int
                    },
            ;
        }
    }
    proof {
        let w = workers as int;
        let rr = rows as int;
        assert(w * (rr / w) + rr % w == rr) by {
            vstd::arithmetic::div_mod::lemma_fundamental_div_mod(rr, w);
        }
        assert(0 <= rr % w < w) by {
            vstd::arithmetic::div_mod::lemma_mod_bound(rr, w);
        }
        assert(w * c >= rr) by (nonlinear_arith)
            requires
                w * (rr / w) + rr % w == rr,
                0 <= rr % w < w,
                c == rr / w + if rr % w == 0 {
                    0int
                } else {
                    1int
                },
        ;
    }
    let mut out: Vec<(usize, usize)> = Vec::new();
    let mut start: usize = 0;
    assert(0 * c == 0) by (nonlinear_arith);
    while start < rows
        invariant
            chunk as nat == c,
            rows > 0 ==> chunk >= 1,
            start <= rows,
            out@.len() == 0 ==> start == 0,
            workers * c >= rows,
            out@.len() <= workers,
            start < rows ==> start == out@.len() * c,
            out@.len() > 0 ==> out@[out@.len() - 1].1 == start,
            forall|k: int| 0 <= k < out@.len() ==> is_chunk(#[trigger] out@[k], k, c, rows as nat),
            forall|k: int| 0 <= k < out@.len() ==> (#[trigger] out@[k]).0 < out@[k].1,
            forall|k: int| 0 <= k < out@.len() - 1 ==> (#[trigger] out@[k]).1 == out@[k + 1].0,
        decreases rows - start,
    {
        let end: usize = if rows - start <= chunk {
            rows
        } else {
            start + chunk
        };
        let ghost k = out@.len() as int;
        proof {
            assert(k * c + c == (k + 1) * c) by (nonlinear_arith);
            assert(k < workers) by (nonlinear_arith)
                requires
                    start == k * c,
                    start < rows,
                    workers * c >= rows,
                    k >= 0,
                    c >= 0,
            ;
        }
        out.push((start, end));
        start = end;
    }
    out
}

} // verus!
