use vstd::prelude::*;

use crate::types::{grid2_wf, grid_view, seq_has, Cell};
use vstd::pervasive::VecAdditionalExecFns;

verus! {

/// Relies on rand::random_range: returns a value drawn uniformly from
/// `0..n` by the thread-local generator; `n >= 1` rules out the empty
/// range, the only case in which it panics.
#[verifier::external_body]
pub(crate) fn random_below(n: usize) -> (r: usize)
    requires
        n >= 1,
    ensures
        r < n,
{
    rand::random_range(0..n)
}

/// A row of `w` cells, all in state zero.
pub(crate) fn zero_row(w: usize) -> (r: Vec<Cell>)
    ensures
        r@.len() == w,
        forall|i: int| 0 <= i < w ==> r@[i] == 0,
{
    let mut cells: Vec<Cell> = Vec::new();
    let mut i: usize = 0;
    while i < w
        invariant
            i <= w,
            cells@.len() == i,
            forall|j: int| 0 <= j < i ==> cells@[j] == 0,
        decreases w - i,
    {
        cells.push(0);
        i = i + 1;
    }
    cells
}

/// An `h` x `w` grid of cells, all in state zero.
pub(crate) fn zero_grid(w: usize, h: usize) -> (r: Vec<Vec<Cell>>)
    ensures
        r@.len() == h,
        forall|y: int| 0 <= y < h ==> (#[trigger] r@[y])@.len() == w,
        forall|y: int, x: int| 0 <= y < h && 0 <= x < w ==> #[trigger] r@[y]@[x] == 0,
        grid2_wf(grid_view(r), h as int, w as int),
        forall|y: int, x: int| 0 <= y < h && 0 <= x < w ==> #[trigger] grid_view(r)[y][x] == 0,
{
    let mut cells: Vec<Vec<Cell>> = Vec::new();
    let mut y: usize = 0;
    while y < h
        invariant
            y <= h,
            cells@.len() == y,
            forall|r0: int| 0 <= r0 < y ==> (#[trigger] cells@[r0])@.len() == w,
            forall|r0: int, x: int| 0 <= r0 < y && 0 <= x < w ==> #[trigger] cells@[r0]@[x] == 0,
        decreases h - y,
    {
        cells.push(zero_row(w));
        y = y + 1;
    }
    proof {
        assert forall|y0: int| 0 <= y0 < h implies (#[trigger] grid_view(cells)[y0]).len()
            == w by {
            assert(cells@[y0]@.len() == w);
        }
        assert forall|y0: int, x: int| 0 <= y0 < h && 0 <= x < w implies #[trigger] grid_view(
            cells,
        )[y0][x] == 0 by {
            assert(cells@[y0]@[x] == 0);
        }
    }
    cells
}

/// Stores `v` at `cells[row][col]`, leaving every other cell unchanged.
pub(crate) fn set_grid_cell(cells: &mut Vec<Vec<Cell>>, row: usize, col: usize, v: Cell)
    requires
        row < old(cells)@.len(),
        col < old(cells)@[row as int]@.len(),
    ensures
        final(cells)@.len() == old(cells)@.len(),
        final(cells)@[row as int]@ == old(cells)@[row as int]@.update(col as int, v),
        forall|r0: int|
            0 <= r0 < old(cells)@.len() && r0 != row ==> final(cells)@[r0] == old(cells)@[r0],
{
    let row_vec = &mut cells[row];
    row_vec.set(col, v);
}

/// Replaces row `row` of the grid, leaving every other row unchanged.
pub(crate) fn set_grid_row(cells: &mut Vec<Vec<Cell>>, row: usize, v: Vec<Cell>)
    requires
        row < old(cells)@.len(),
    ensures
        final(cells)@.len() == old(cells)@.len(),
        final(cells)@[row as int] == v,
        forall|r0: int|
            0 <= r0 < old(cells)@.len() && r0 != row ==> final(cells)@[r0] == old(cells)@[r0],
{
    cells.set(row, v);
}

/// The lower bound of the filled index range.
pub open spec fn fill_lo(i1: Option<usize>) -> int {
    match i1 {
        None => 0,
        Some(i) => i as int,
    }
}

/// The upper bound of the filled index range, clipped to the grid size.
pub open spec fn fill_hi(i2: Option<usize>, limit: int) -> int {
    match i2 {
        None => limit,
        Some(i) => vstd::math::min(i as int, limit),
    }
}

/// A width-`w` row whose cells in `[i1, min(i2, w))` each hold one of the
/// given states, drawn at random, and whose other cells hold zero.
pub fn random1d(w: usize, states: Vec<Cell>, i1: Option<usize>, i2: Option<usize>) -> (r: Vec<
    Cell,
>)
    requires
        fill_lo(i1) < fill_hi(i2, w as int) ==> states.len() >= 1,
    ensures
        r@.len() == w,
        forall|j: int|
            0 <= j < w && fill_lo(i1) <= j < fill_hi(i2, w as int) ==> seq_has(
                states@,
                #[trigger] r@[j] as int,
            ),
        forall|j: int|
            0 <= j < w && !(fill_lo(i1) <= j < fill_hi(i2, w as int)) ==> #[trigger] r@[j] == 0,
{
    let mut cells = zero_row(w);
    let min_idx: usize = match i1 {
        None => 0,
        Some(i) => i,
    };
    let max_idx: usize = match i2 {
        None => w,
        Some(i) => if i < w {
            i
        } else {
            w
        },
    };
    if min_idx < max_idx {
        let mut i: usize = min_idx;
        while i < max_idx
            invariant
                min_idx <= i <= max_idx <= w,
                states.len() >= 1,
                cells@.len() == w,
                forall|j: int| min_idx <= j < i ==> seq_has(states@, #[trigger] cells@[j] as int),
                forall|j: int|
                    0 <= j < w && !(min_idx <= j < i) ==> #[trigger] cells@[j] == 0,
            decreases max_idx - i,
        {
            let pick = random_below(states.len());
            cells.set(i, states[pick]);
            i = i + 1;
        }
    }
    cells
}

/// A `w` x `h` grid whose cells with x in `[x1, min(x2, w))` and y in
/// `[y1, min(y2, h))` each hold one of the given states, drawn at random,
/// and whose other cells hold zero.
pub fn random2d(
    w: usize,
    h: usize,
    states: Vec<Cell>,
    x1: Option<usize>,
    x2: Option<usize>,
    y1: Option<usize>,
    y2: Option<usize>,
) -> (r: Vec<Vec<Cell>>)
    requires
        fill_lo(x1) < fill_hi(x2, w as int) && fill_lo(y1) < fill_hi(y2, h as int)
            ==> states.len() >= 1,
    ensures
        grid2_wf(grid_view(r), h as int, w as int),
        forall|y: int, x: int|
            0 <= y < h && 0 <= x < w && fill_lo(y1) <= y < fill_hi(y2, h as int) && fill_lo(x1)
                <= x < fill_hi(x2, w as int) ==> seq_has(
                states@,
                #[trigger] grid_view(r)[y][x] as int,
            ),
        forall|y: int, x: int|
            0 <= y < h && 0 <= x < w && !(fill_lo(y1) <= y < fill_hi(y2, h as int) && fill_lo(x1)
                <= x < fill_hi(x2, w as int)) ==> #[trigger] grid_view(r)[y][x] == 0,
{
    let mut cells = zero_grid(w, h);
    let min_x: usize = match x1 {
        None => 0,
        Some(x) => x,
    };
    let max_x: usize = match x2 {
        None => w,
        Some(x) => if x < w {
            x
        } else {
            w
        },
    };
    let min_y: usize = match y1 {
        None => 0,
        Some(y) => y,
    };
    let max_y: usize = match y2 {
        None => h,
        Some(y) => if y < h {
            y
        } else {
            h
        },
    };
    if min_x < max_x && min_y < max_y {
        let mut row: usize = min_y;
        while row < max_y
            invariant
                min_y <= row <= max_y <= h,
                min_x < max_x <= w,
                states.len() >= 1,
                cells@.len() == h,
                forall|r0: int| 0 <= r0 < h ==> (#[trigger] cells@[r0])@.len() == w,
                forall|y: int, x: int|
                    0 <= y < h && 0 <= x < w && min_y <= y < row && min_x <= x < max_x ==> seq_has(
                        states@,
                        #[trigger] cells@[y]@[x] as int,
                    ),
                forall|y: int, x: int|
                    0 <= y < h && 0 <= x < w && !(min_y <= y < row && min_x <= x < max_x)
                        ==> #[trigger] cells@[y]@[x] == 0,
            decreases max_y - row,
        {
            let mut col: usize = min_x;
            while col < max_x
                invariant
                    min_y <= row < max_y <= h,
                    min_x <= col <= max_x <= w,
                    states.len() >= 1,
                    cells@.len() == h,
                    forall|r0: int| 0 <= r0 < h ==> (#[trigger] cells@[r0])@.len() == w,
                    forall|y: int, x: int|
                        0 <= y < h && 0 <= x < w && min_y <= y < row && min_x <= x < max_x
                            ==> seq_has(states@, #[trigger] cells@[y]@[x] as int),
                    forall|x: int|
                        min_x <= x < col ==> seq_has(
                            states@,
                            #[trigger] cells@[row as int]@[x] as int,
                        ),
                    forall|y: int, x: int|
                        0 <= y < h && 0 <= x < w && !(min_y <= y < row && min_x <= x < max_x) && !(y
                            == row && min_x <= x < col) ==> #[trigger] cells@[y]@[x] == 0,
                decreases max_x - col,
            {
                let pick = random_below(states.len());
                let v = states[pick];
                set_grid_cell(&mut cells, row, col, v);
                col = col + 1;
            }
            row = row + 1;
        }
    }
    proof {
        assert forall|y: int, x: int|
            0 <= y < h && 0 <= x < w && fill_lo(y1) <= y < fill_hi(y2, h as int) && fill_lo(x1) <= x
                < fill_hi(x2, w as int) implies seq_has(
            states@,
            #[trigger] grid_view(cells)[y][x] as int,
        ) by {
            assert(seq_has(states@, cells@[y]@[x] as int));
        }
        assert forall|y: int, x: int|
            0 <= y < h && 0 <= x < w && !(fill_lo(y1) <= y < fill_hi(y2, h as int) && fill_lo(x1)
                <= x < fill_hi(x2, w as int)) implies #[trigger] grid_view(cells)[y][x] == 0 by {
            assert(cells@[y]@[x] == 0);
        }
        assert forall|y: int| 0 <= y < h implies (#[trigger] grid_view(cells)[y]).len() == w by {
            assert(cells@[y]@.len() == w);
        }
    }
    cells
}

/// A width-`w` row holding `1` at each of the given indexes and `0` elsewhere.
pub fn points1d(w: usize, indexes: Vec<usize>) -> (r: Vec<Cell>)
    requires
        forall|k: int| 0 <= k < indexes@.len() ==> #[trigger] indexes@[k] < w,
    ensures
        r@.len() == w,
        forall|j: int|
            0 <= j < w ==> #[trigger] r@[j] == if exists|k: int|
                0 <= k < indexes@.len() && indexes@[k] == j {
                1u32
            } else {
                0u32
            },
{
    let mut cells = zero_row(w);
    let mut k: usize = 0;
    while k < indexes.len()
        invariant
            k <= indexes@.len(),
            cells@.len() == w,
            forall|t: int| 0 <= t < indexes@.len() ==> #[trigger] indexes@[t] < w,
            forall|j: int|
                0 <= j < w ==> #[trigger] cells@[j] == if exists|t: int|
                    0 <= t < k && indexes@[t] == j {
                    1u32
                } else {
                    0u32
                },
        decreases indexes@.len() - k,
    {
        let i = indexes[k];
        cells.set(i, 1);
        k = k + 1;
    }
    cells
}

/// A `w` x `h` grid holding `1` at each of the given `(x, y)` coordinates
/// and `0` elsewhere.
pub fn points2d(w: usize, h: usize, coords: Vec<(usize, usize)>) -> (r: Vec<Vec<Cell>>)
    requires
        forall|k: int|
            0 <= k < coords@.len() ==> (#[trigger] coords@[k]).0 < w && coords@[k].1 < h,
    ensures
        grid2_wf(grid_view(r), h as int, w as int),
        forall|y: int, x: int|
            0 <= y < h && 0 <= x < w ==> #[trigger] grid_view(r)[y][x] == if exists|k: int|
                0 <= k < coords@.len() && coords@[k] == (x as usize, y as usize) {
                1u32
            } else {
                0u32
            },
{
    let mut cells = zero_grid(w, h);
    let mut k: usize = 0;
    while k < coords.len()
        invariant
            k <= coords@.len(),
            cells@.len() == h,
            forall|r0: int| 0 <= r0 < h ==> (#[trigger] cells@[r0])@.len() == w,
            forall|t: int|
                0 <= t < coords@.len() ==> (#[trigger] coords@[t]).0 < w && coords@[t].1 < h,
            forall|y: int, x: int|
                0 <= y < h && 0 <= x < w ==> #[trigger] cells@[y]@[x] == if exists|t: int|
                    0 <= t < k && coords@[t] == (x as usize, y as usize) {
                    1u32
                } else {
                    0u32
                },
        decreases coords@.len() - k,
    {
        let (x, y) = coords[k];
        set_grid_cell(&mut cells, y, x, 1);
        k = k + 1;
    }
    proof {
        assert forall|y: int| 0 <= y < h implies (#[trigger] grid_view(cells)[y]).len() == w by {
            assert(cells@[y]@.len() == w);
        }
        assert forall|y: int, x: int| 0 <= y < h && 0 <= x < w implies #[trigger] grid_view(
            cells,
        )[y][x] == if exists|k0: int| 0 <= k0 < coords@.len() && coords@[k0] == (
            x as usize,
            y as usize,
        ) {
            1u32
        } else {
            0u32
        } by {
            assert(grid_view(cells)[y][x] == cells@[y]@[x]);
        }
    }
    cells
}

} // verus!
