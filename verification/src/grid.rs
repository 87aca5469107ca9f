//! The lattice on which a landscape is sampled.
//!
//! A grid of resolution `n` visits the cells `(i, j)` with `i` in the outer order and
//! `j` in the inner order; the coordinate of index `i` along an axis is the fraction
//! `i / grid_divisor(n)` of that axis' range.
use vstd::prelude::*;

verus! {

/// The divisor of a grid index along an axis: `max(n - 1, 1)`.
pub open spec fn divisor_of(resolution: nat) -> nat {
    if resolution > 1 {
        (resolution - 1) as nat
    } else {
        1
    }
}

/// The divisor that maps grid indices `0..n` onto `[0, 1]`.
pub fn grid_divisor(resolution: usize) -> (r: usize)
    ensures
        r == divisor_of(resolution as nat),
        resolution > 1 ==> r + 1 == resolution,
        resolution <= 1 ==> r == 1,
{
    if resolution > 1 {
        resolution - 1
    } else {
        1
    }
}

/// All cells of a `resolution × resolution` grid, row by row.
pub fn grid_indices(resolution: usize) -> (cells: Vec<(usize, usize)>)
    requires
        resolution * resolution <= usize::MAX,
    ensures
        cells.len() == resolution * resolution,
        forall|i: int, j: int|
            0 <= i < resolution && 0 <= j < resolution ==> #[trigger] cells[i * resolution + j]
                == (i as usize, j as usize),
{
    let n: usize = resolution;
    let mut cells: Vec<(usize, usize)> = Vec::new();
    let mut i: usize = 0;
    while i < n
        invariant
            n == resolution,
            n * n <= usize::MAX,
            i <= n,
            cells.len() == i * n,
            forall|a: int, b: int|
                0 <= a < i && 0 <= b < n ==> #[trigger] cells[a * n + b] == (a as usize, b as usize),
        decreases n - i,
    {
        let mut j: usize = 0;
        let ghost before = cells@;
        while j < n
            invariant
                n == resolution,
                n * n <= usize::MAX,
                i < n,
                j <= n,
                cells.len() == i * n + j,
                forall|p: int| 0 <= p < i * n ==> #[trigger] cells@[p] == before[p],
                before.len() == i * n,
                forall|b: int| 0 <= b < j ==> #[trigger] cells@[i * n + b] == (i, b as usize),
            decreases n - j,
        {
            assert(i * n + j < n * n) by (nonlinear_arith)
                requires
                    i < n,
                    j < n,
            ;
            cells.push((i, j));
            j = j + 1;
        }
        assert forall|a: int, b: int| 0 <= a < i + 1 && 0 <= b < n implies #[trigger] cells[a * n
            + b] == (a as usize, b as usize) by {
            if a < i {
                assert(a * n + b < i * n) by (nonlinear_arith)
                    requires
                        a < i,
                        b < n,
                ;
                assert(cells@[a * n + b] == before[a * n + b]);
            }
        }
        assert((i + 1) * n == i * n + n) by (nonlinear_arith);
        i = i + 1;
    }
    cells
}

/// On a grid of resolution `n > 1`, the last index equals the divisor, so it maps to
/// the top of the range, and the largest index is at most the divisor, so no cell leaves the
/// range; a grid of one cell (or none) divides by 1.
pub proof fn lemma_divisor_spans_grid(n: nat)
    ensures
        n > 1 ==> divisor_of(n) == n - 1,
        n >= 1 ==> n - 1 <= divisor_of(n),
        n <= 1 ==> divisor_of(n) == 1,
{
}

} // verus!
