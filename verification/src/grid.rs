use vstd::prelude::*;

verus! {

/// One cell of the procedural splat grid: its coordinates along the three
/// axes, and the amount (from 0 to 6) by which the splat placed there is
/// scaled up, in sixths of half the base scale.
#[derive(Clone, Copy, Debug, PartialEq, Eq, Structural)]
pub struct GridCell {
    pub i: u32,
    pub j: u32,
    pub k: u32,
    pub scale_variation: u32,
}

/// The cell at coordinates `(i, j, k)`; its scale variation is
/// `i % 3 + j % 3 + k % 3`.
pub open spec fn grid_cell(i: u32, j: u32, k: u32) -> GridCell {
    GridCell { i, j, k, scale_variation: (i % 3 + j % 3 + k % 3) as u32 }
}

/// Where cell `(i, j, k)` of a grid with `n` cells per axis stands in the
/// list of cells: `i` varies slowest and `k` fastest.
pub open spec fn grid_index(n: int, i: int, j: int, k: int) -> int {
    (i * n + j) * n + k
}

/// Whether `(i, j, k)` are coordinates of a grid with `n` cells per axis.
pub open spec fn in_grid(n: int, i: int, j: int, k: int) -> bool {
    0 <= i < n && 0 <= j < n && 0 <= k < n
}

/// Moving one row on: the slot after the last of a row is the first of the next.
proof fn lemma_row_end(n: int, a: int, b: int)
    ensures
        (a * n + b) * n + n == (a * n + b + 1) * n,
{
    assert((a * n + b) * n + n == (a * n + b + 1) * n) by (nonlinear_arith);
}

/// Different digits in base `n` give different numbers.
proof fn lemma_digits_unique(n: int, x: int, c: int, y: int, k: int)
    requires
        0 <= c < n,
        0 <= k < n,
        x * n + c == y * n + k,
    ensures
        x == y,
        c == k,
{
    assert(x == y) by (nonlinear_arith)
        requires
            0 <= c < n,
            0 <= k < n,
            x * n + c == y * n + k,
    ;
}

/// Each cell of the grid has its own index, below `n * n * n`.
pub proof fn lemma_grid_index_bijective(n: int, a: int, b: int, c: int, i: int, j: int, k: int)
    requires
        in_grid(n, a, b, c),
        in_grid(n, i, j, k),
    ensures
        0 <= grid_index(n, i, j, k) < n * n * n,
        grid_index(n, a, b, c) == grid_index(n, i, j, k) ==> a == i && b == j && c == k,
{
    assert(0 <= i * n + j < n * n) by (nonlinear_arith)
        requires
            0 <= i < n,
            0 <= j < n,
    ;
    assert(0 <= grid_index(n, i, j, k) < n * n * n) by (nonlinear_arith)
        requires
            0 <= i * n + j < n * n,
            0 <= k < n,
            grid_index(n, i, j, k) == (i * n + j) * n + k,
    ;
    if grid_index(n, a, b, c) == grid_index(n, i, j, k) {
        lemma_digits_unique(n, a * n + b, c, i * n + j, k);
        lemma_digits_unique(n, a, b, i, j);
    }
}

/// The cells of a procedural grid with `count_per_axis` cells along each
/// axis, `i` varying slowest and `k` fastest: `count_per_axis³` cells, each
/// at its own index.
pub fn procedural_grid(count_per_axis: u32) -> (cells: Vec<GridCell>)
    ensures
        cells.len() == count_per_axis * count_per_axis * count_per_axis,
        forall|i: int, j: int, k: int|
            #![trigger grid_index(count_per_axis as int, i, j, k)]
            in_grid(count_per_axis as int, i, j, k) ==> cells@[grid_index(count_per_axis as int, i, j, k)]
                == grid_cell(i as u32, j as u32, k as u32),
        forall|i: int, j: int, k: int|
            #![trigger grid_index(count_per_axis as int, i, j, k)]
            in_grid(count_per_axis as int, i, j, k) ==> {
                let c = cells@[grid_index(count_per_axis as int, i, j, k)];
                &&& c.i == i
                &&& c.j == j
                &&& c.k == k
                &&& c.scale_variation == i % 3 + j % 3 + k % 3
            },
        forall|idx: int|
            0 <= idx < cells.len() ==> #[trigger] cells@[idx].scale_variation == cells@[idx].i % 3
                + cells@[idx].j % 3 + cells@[idx].k % 3,
        forall|idx: int|
            0 <= idx < cells.len() ==> {
                let c = #[trigger] cells@[idx];
                &&& in_grid(count_per_axis as int, c.i as int, c.j as int, c.k as int)
                &&& idx == grid_index(count_per_axis as int, c.i as int, c.j as int, c.k as int)
                &&& c == grid_cell(c.i, c.j, c.k)
            },
{
    let n = count_per_axis;
    let ghost ni = n as int;
    let mut cells: Vec<GridCell> = Vec::new();
    let mut i: u32 = 0;
    while i < n
        invariant
            ni == n as int,
            i <= n,
            cells.len() == grid_index(ni, i as int, 0, 0),
            forall|idx: int|
                0 <= idx < cells.len() ==> {
                    let c = #[trigger] cells@[idx];
                    &&& in_grid(ni, c.i as int, c.j as int, c.k as int)
                    &&& idx == grid_index(ni, c.i as int, c.j as int, c.k as int)
                    &&& c == grid_cell(c.i, c.j, c.k)
                },
        decreases n - i,
    {
        let mut j: u32 = 0;
        while j < n
            invariant
                ni == n as int,
                i < n,
                j <= n,
                cells.len() == grid_index(ni, i as int, j as int, 0),
                forall|idx: int|
                    0 <= idx < cells.len() ==> {
                        let c = #[trigger] cells@[idx];
                        &&& in_grid(ni, c.i as int, c.j as int, c.k as int)
                        &&& idx == grid_index(ni, c.i as int, c.j as int, c.k as int)
                        &&& c == grid_cell(c.i, c.j, c.k)
                    },
            decreases n - j,
        {
            let mut k: u32 = 0;
            while k < n
                invariant
                    ni == n as int,
                    i < n,
                    j < n,
                    k <= n,
                    cells.len() == grid_index(ni, i as int, j as int, k as int),
                    forall|idx: int|
                        0 <= idx < cells.len() ==> {
                            let c = #[trigger] cells@[idx];
                            &&& in_grid(ni, c.i as int, c.j as int, c.k as int)
                            &&& idx == grid_index(ni, c.i as int, c.j as int, c.k as int)
                            &&& c == grid_cell(c.i, c.j, c.k)
                        },
                decreases n - k,
            {
                let cell = GridCell { i, j, k, scale_variation: i % 3 + j % 3 + k % 3 };
                cells.push(cell);
                k = k + 1;
            }
            proof {
                lemma_row_end(ni, i as int, j as int);
            }
            j = j + 1;
        }
        proof {
            lemma_row_end(ni, 0, i as int);
            assert(grid_index(ni, i as int, ni, 0) == grid_index(ni, i + 1, 0, 0)) by (nonlinear_arith)
                requires
                    grid_index(ni, i as int, ni, 0) == (i * ni + ni) * ni,
                    grid_index(ni, i + 1, 0, 0) == ((i + 1) * ni) * ni,
            ;
        }
        i = i + 1;
    }
    proof {
        assert(grid_index(ni, ni, 0, 0) == ni * ni * ni) by (nonlinear_arith)
            requires
                grid_index(ni, ni, 0, 0) == (ni * ni + 0) * ni + 0,
        ;
        assert forall|a: int, b: int, c: int|
            #![trigger grid_index(ni, a, b, c)]
            in_grid(ni, a, b, c) implies cells@[grid_index(ni, a, b, c)] == grid_cell(a as u32, b as u32, c as u32) by {
            lemma_grid_index_bijective(ni, a, b, c, a, b, c);
            let idx = grid_index(ni, a, b, c);
            let cell = cells@[idx];
            lemma_grid_index_bijective(ni, cell.i as int, cell.j as int, cell.k as int, a, b, c);
        }
    }
    cells
}

/// The cell at `(i, j, k)` records those coordinates, and its scale
/// variation is the sum of their remainders modulo 3.
pub proof fn lemma_grid_cell_coordinates(i: u32, j: u32, k: u32)
    ensures
        grid_cell(i, j, k).i == i,
        grid_cell(i, j, k).j == j,
        grid_cell(i, j, k).k == k,
        grid_cell(i, j, k).scale_variation == i % 3 + j % 3 + k % 3,
{
}

/// A cell's scale variation lies between 0 and 6, so the splat there is
/// scaled by between three and five quarters of the base scale.
pub proof fn lemma_scale_variation_bounded(i: u32, j: u32, k: u32)
    ensures
        grid_cell(i, j, k).scale_variation <= 6,
{
}

/// The number of steps in the colour gradient across a grid with
/// `count_per_axis` cells per axis: one less than the count, and at least 1.
pub fn gradient_divisor(count_per_axis: u32) -> (d: u32)
    ensures
        d == if count_per_axis <= 1 {
            1
        } else {
            count_per_axis - 1
        },
{
    if count_per_axis <= 1 {
        1
    } else {
        count_per_axis - 1
    }
}

} // verus!
