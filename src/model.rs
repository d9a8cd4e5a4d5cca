use vstd::prelude::*;

verus! {

/// The rows of a grid of `Vec`s, as sequences.
pub open spec fn rows_view(data: Seq<Vec<i32>>) -> Seq<Seq<i32>> {
    data.map_values(|r: Vec<i32>| r@)
}

/// Every row of `g` has `cols` elements.
pub open spec fn all_rows_have(g: Seq<Seq<i32>>, cols: nat) -> bool {
    forall|i: int| 0 <= i < g.len() ==> (#[trigger] g[i]).len() == cols
}

/// `g` is a grid with `rows` rows of `cols` elements each.
pub open spec fn is_grid(g: Seq<Seq<i32>>, rows: nat, cols: nat) -> bool {
    g.len() == rows && all_rows_have(g, cols)
}

/// A row list is accepted as a matrix: it is not empty, and every row is as
/// long as the first.
pub open spec fn valid_rows(g: Seq<Seq<i32>>) -> bool {
    g.len() > 0 && all_rows_have(g, g[0].len())
}

/// The sum of the first `t` products of row `i` of `a` with column `j` of
/// `b`: the running sum of a dot product after `t` steps.
pub open spec fn dot(a: Seq<Seq<i32>>, b: Seq<Seq<i32>>, i: int, j: int, t: nat) -> int
    decreases t,
{
    if t == 0 {
        0
    } else {
        dot(a, b, i, j, (t - 1) as nat) + a[i][t - 1] * b[t - 1][j]
    }
}

/// `x` lies in the range of `i64`.
pub open spec fn fits_i64(x: int) -> bool {
    i64::MIN <= x <= i64::MAX
}

/// `x` lies in the range of `i32`.
pub open spec fn fits_i32(x: int) -> bool {
    i32::MIN <= x <= i32::MAX
}

/// Computing cell `(i, j)` of a product with inner dimension `n` overflows:
/// some running sum leaves the range of `i64`, or the full sum does not fit
/// in `i32`.
pub open spec fn cell_overflows(a: Seq<Seq<i32>>, b: Seq<Seq<i32>>, i: int, j: int, n: nat) -> bool {
    ||| exists|t: nat| 1 <= t <= n && !fits_i64(#[trigger] dot(a, b, i, j, t))
    ||| !fits_i32(dot(a, b, i, j, n))
}

/// Some cell in rows `lo..hi` (and columns `0..p`) of the product overflows.
pub open spec fn rows_overflow(
    a: Seq<Seq<i32>>,
    b: Seq<Seq<i32>>,
    lo: int,
    hi: int,
    n: nat,
    p: nat,
) -> bool {
    exists|i: int, j: int| lo <= i < hi && 0 <= j < p && #[trigger] cell_overflows(a, b, i, j, n)
}

/// `c` holds rows `lo..hi` of the product of `a` and `b`, with inner
/// dimension `n` and `p` columns.
pub open spec fn is_product_rows(
    c: Seq<Seq<i32>>,
    a: Seq<Seq<i32>>,
    b: Seq<Seq<i32>>,
    lo: int,
    hi: int,
    n: nat,
    p: nat,
) -> bool {
    &&& c.len() == hi - lo
    &&& all_rows_have(c, p)
    &&& forall|r: int, j: int|
        0 <= r < c.len() && 0 <= j < p ==> #[trigger] c[r][j] as int == dot(a, b, lo + r, j, n)
}

} // verus!
